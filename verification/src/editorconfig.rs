//! Formatting rules per file, resolved from the hierarchy of per-directory
//! configuration files.
//!
//! A file's rules come from the config files of its ancestor directories.
//! Each directory has a stack: the configs that apply in it, outermost first.
//! A directory inherits the stack of the directory above and adds its own
//! config; a config that declares itself root starts the stack anew. The
//! sections of the stack's configs are laid over one another in order, and
//! three keys of the outcome give the rules.
//!
//! Reading config files is left to the caller. The cache says which
//! directory's config it needs next, and takes its bytes.

use crate::ec::{
    apply_section, final_newline, lowercased, new_properties, next_section, open_parser,
    parsed_config, parser_pending, props_map, raw_value, section_glob_matches, section_pattern,
    section_props, to_lowercase, trim_trailing_ws,
};
use crate::paths::{parent_dir, parent_of, relative_path, relative_to};
use ec4rs::{Properties, Section};
use vstd::prelude::*;

verus! {

/// The three formatting directives that apply to one file.
#[derive(Clone, Copy, Debug, PartialEq, Eq, Structural)]
pub struct FormatRules {
    /// Whether the text must end with exactly one line feed.
    pub ensure_final_newline: bool,
    /// Whether white space at the end of each line is removed.
    pub remove_trailing_spaces: bool,
    /// Whether empty lines at the start of the text are removed.
    pub remove_leading_newlines: bool,
}

impl FormatRules {
    /// The rule set with every directive off.
    pub open spec fn none() -> FormatRules {
        FormatRules {
            ensure_final_newline: false,
            remove_trailing_spaces: false,
            remove_leading_newlines: false,
        }
    }

    /// Whether no directive is on.
    pub open spec fn is_none(&self) -> bool {
        !self.ensure_final_newline && !self.remove_trailing_spaces && !self.remove_leading_newlines
    }
}

impl Default for FormatRules {
    /// Every directive off.
    fn default() -> (rules: FormatRules)
        ensures
            rules == FormatRules::none(),
    {
        FormatRules {
            ensure_final_newline: false,
            remove_trailing_spaces: false,
            remove_leading_newlines: false,
        }
    }
}

/// A property map: keys with their values.
pub type Props = Map<Seq<char>, Seq<char>>;

/// One section of a config file: a glob pattern, relative to the directory
/// of the file, and the properties it sets for the files that match.
pub struct SectionModel {
    pub pattern: Seq<char>,
    pub props: Props,
}

/// One parsed config file.
pub struct ConfigModel {
    /// The directory that holds the file.
    pub dir: Seq<char>,
    /// Whether the file declares itself root.
    pub is_root: bool,
    /// Its sections, in the order in which the file declares them.
    pub sections: Seq<SectionModel>,
}

/// What is known of the config files of a tree: for each directory that was
/// looked at, its config, or `None` where it has none that can be used.
pub type World = Map<Seq<char>, Option<ConfigModel>>;

/// The properties after one section is laid over `acc`, for a file whose
/// path relative to the section's directory is `rel`: where the pattern
/// matches, the section's values take the place of those in `acc`.
pub open spec fn overlay_section(acc: Props, section: SectionModel, rel: Seq<char>) -> Props {
    if section_glob_matches(section.pattern, rel) {
        acc.union_prefer_right(section.props)
    } else {
        acc
    }
}

/// The properties after the sections are laid over `acc` one after another,
/// so that a later section wins over an earlier one.
pub open spec fn overlay_sections(acc: Props, sections: Seq<SectionModel>, rel: Seq<char>) -> Props
    decreases sections.len(),
{
    if sections.len() == 0 {
        acc
    } else {
        overlay_section(overlay_sections(acc, sections.drop_last(), rel), sections.last(), rel)
    }
}

/// The properties after the sections of one config are laid over `acc`, for
/// the file at `file`. Patterns are matched against the file's path relative
/// to the config's directory.
pub open spec fn overlay_config(acc: Props, config: ConfigModel, file: Seq<char>) -> Props {
    overlay_sections(acc, config.sections, relative_to(file, config.dir))
}

/// The properties after the configs of a stack are laid over `acc` one after
/// another, so that a config nearer to the file wins over one further out.
pub open spec fn overlay_stack(acc: Props, stack: Seq<ConfigModel>, file: Seq<char>) -> Props
    decreases stack.len(),
{
    if stack.len() == 0 {
        acc
    } else {
        overlay_config(overlay_stack(acc, stack.drop_last(), file), stack.last(), file)
    }
}

/// The config of `dir` in `world`, if one is known there.
pub open spec fn config_at(world: World, dir: Seq<char>) -> Option<ConfigModel> {
    if world.contains_key(dir) {
        world[dir]
    } else {
        None
    }
}

/// The stack of `dir`: the configs that apply to files in it, outermost
/// first. It is the stack of the directory above, with the directory's own
/// config added at the end, or the directory's own config alone where that
/// declares itself root.
pub open spec fn stack_of(world: World, dir: Seq<char>) -> Seq<ConfigModel>
    decreases dir.len(),
{
    let inherited = match parent_of(dir) {
        Some(p) => stack_of(world, p),
        None => Seq::empty(),
    };
    match config_at(world, dir) {
        Some(config) => if config.is_root {
            seq![config]
        } else {
            inherited.push(config)
        },
        None => inherited,
    }
}

/// Whether a property is switched on: its value is `true`, in any mix of
/// upper and lower case.
pub open spec fn switched_on(props: Props, key: Seq<char>) -> bool {
    props.contains_key(key) && props[key].len() > 0 && lowercased(props[key]) == "true"@
}

/// The rules that a property map stands for.
pub open spec fn rules_of(props: Props) -> FormatRules {
    FormatRules {
        ensure_final_newline: switched_on(props, "insert_final_newline"@),
        remove_trailing_spaces: switched_on(props, "trim_trailing_whitespace"@),
        remove_leading_newlines: switched_on(props, "trim_leading_newlines"@),
    }
}

/// The properties in force for the file at `file`: the stack of its
/// directory laid over the empty map.
pub open spec fn effective_props(world: World, file: Seq<char>) -> Props {
    match parent_of(file) {
        Some(dir) => overlay_stack(Map::empty(), stack_of(world, dir), file),
        None => Map::empty(),
    }
}

/// The rules for the file at `file`.
pub open spec fn resolve(world: World, file: Seq<char>) -> FormatRules {
    rules_of(effective_props(world, file))
}

/// Whether the configs of `dir` and of every directory above it are known.
pub open spec fn settled(world: World, dir: Seq<char>) -> bool
    decreases dir.len(),
{
    world.contains_key(dir) && match parent_of(dir) {
        Some(p) => settled(world, p),
        None => true,
    }
}

/// The outermost directory among `dir` and those above it whose config is
/// not known. It is meant for a `dir` that is not settled.
pub open spec fn first_missing(world: World, dir: Seq<char>) -> Seq<char>
    decreases dir.len(),
{
    match parent_of(dir) {
        Some(p) => if settled(world, p) {
            dir
        } else {
            first_missing(world, p)
        },
        None => dir,
    }
}

/// Whether every section of a parsed file was read without failure.
pub open spec fn all_parsed(items: Seq<Option<(Seq<char>, Props)>>) -> bool {
    forall|i: int| 0 <= i < items.len() ==> (#[trigger] items[i]) is Some
}

/// The sections that the parser's items stand for.
pub open spec fn sections_of(items: Seq<Option<(Seq<char>, Props)>>) -> Seq<SectionModel> {
    Seq::new(
        items.len(),
        |i: int| SectionModel { pattern: items[i].unwrap().0, props: items[i].unwrap().1 },
    )
}

/// The config that the bytes `content` of a config file in `dir` stand for,
/// or `None` where the preamble or any section fails to parse.
pub open spec fn config_of(dir: Seq<char>, content: Seq<u8>) -> Option<ConfigModel> {
    match parsed_config(content) {
        Some((is_root, items)) => if all_parsed(items) {
            Some(ConfigModel { dir, is_root, sections: sections_of(items) })
        } else {
            None
        },
        None => None,
    }
}

/// The model of a section held by the parser crate.
pub open spec fn section_model(section: Section) -> SectionModel {
    SectionModel { pattern: section_pattern(section), props: section_props(section) }
}

/// The models of a run of sections.
pub open spec fn section_models(sections: Seq<Section>) -> Seq<SectionModel> {
    Seq::new(sections.len(), |i: int| section_model(sections[i]))
}

/// One parsed config file, with the directory that holds it.
pub struct ParsedConfig {
    dir: String,
    is_root: bool,
    sections: Vec<Section>,
}

impl View for ParsedConfig {
    type V = ConfigModel;

    closed spec fn view(&self) -> ConfigModel {
        ConfigModel {
            dir: self.dir@,
            is_root: self.is_root,
            sections: section_models(self.sections@),
        }
    }
}

impl ParsedConfig {
    /// Lays the sections of this config that match `file_path` over `props`,
    /// in the order in which the file declares them.
    fn apply_to(&self, props: &mut Properties, file_path: &str)
        ensures
            props_map(*final(props)) == overlay_config(props_map(*old(props)), self@, file_path@),
    {
        let rel_path = relative_path(file_path, self.dir.as_str());
        let ghost models = section_models(self.sections@);
        let ghost start = props_map(*props);
        let mut i: usize = 0;
        proof {
            assert(models.subrange(0, 0) =~= Seq::<SectionModel>::empty());
        }
        while i < self.sections.len()
            invariant
                i <= self.sections.len(),
                models == section_models(self.sections@),
                props_map(*props) == overlay_sections(start, models.subrange(0, i as int), rel_path@),
            decreases self.sections.len() - i,
        {
            apply_section(&self.sections[i], props, rel_path);
            proof {
                let next = models.subrange(0, i + 1);
                assert(next.drop_last() =~= models.subrange(0, i as int));
                assert(next.last() == section_model(self.sections@[i as int]));
            }
            i = i + 1;
        }
        proof {
            assert(models.subrange(0, models.len() as int) =~= models);
        }
    }
}

/// Parses the bytes of the config file of directory `dir`. Returns `None`
/// where the preamble or a section is malformed: such a file counts as
/// absent.
fn parse_config_file(dir: &str, content: &[u8]) -> (parsed: Option<ParsedConfig>)
    ensures
        match parsed {
            Some(config) => config_of(dir@, content@) == Some(config@),
            None => config_of(dir@, content@) is None,
        },
{
    let (is_root, mut reader) = match open_parser(content) {
        Some(opened) => opened,
        None => {
            return None;
        },
    };
    let ghost items = parsed_config(content@).unwrap().1;
    let mut sections: Vec<Section> = Vec::new();
    proof {
        assert(items =~= Seq::new(0, |i: int| Some(pair_of(sections@[i]))) + parser_pending(reader));
    }
    loop
        invariant
            parsed_config(content@) == Some((is_root, items)),
            items == Seq::new(sections@.len(), |i: int| Some(pair_of(sections@[i])))
                + parser_pending(reader),
        decreases parser_pending(reader).len(),
    {
        let ghost before = sections@;
        let ghost pending = parser_pending(reader);
        match next_section(&mut reader) {
            Some(Some(section)) => {
                sections.push(section);
                proof {
                    assert(Seq::new(sections@.len(), |i: int| Some(pair_of(sections@[i])))
                        =~= Seq::new(before.len(), |i: int| Some(pair_of(before[i]))) + seq![
                        Some(pair_of(section)),
                    ]);
                    assert(items =~= Seq::new(
                        sections@.len(),
                        |i: int| Some(pair_of(sections@[i])),
                    ) + parser_pending(reader));
                }
            },
            Some(None) => {
                proof {
                    assert(items[sections@.len() as int] == pending[0]);
                }
                return None;
            },
            None => {
                proof {
                    assert(items =~= Seq::new(
                        sections@.len(),
                        |i: int| Some(pair_of(sections@[i])),
                    ));
                    assert(sections_of(items) =~= section_models(sections@));
                }
                return Some(ParsedConfig { dir: dir.to_owned(), is_root, sections });
            },
        }
    }
}

/// The pattern and the properties of a section, as the parser's items give
/// them.
pub open spec fn pair_of(section: Section) -> (Seq<char>, Props) {
    (section_pattern(section), section_props(section))
}

/// Reads the three rules off the resolved properties. A rule is on where its
/// property has the value `true`, in any mix of upper and lower case; any
/// other value, and no value, leave it off.
fn rules_from_properties(properties: &Properties) -> (rules: FormatRules)
    ensures
        rules == rules_of(props_map(*properties)),
{
    let ensure_final_newline = match final_newline(properties) {
        Some(value) => value,
        None => false,
    };
    let remove_trailing_spaces = match trim_trailing_ws(properties) {
        Some(value) => value,
        None => false,
    };
    let remove_leading_newlines = match raw_value(properties, "trim_leading_newlines") {
        Some(value) => {
            let lower = to_lowercase(value);
            let wanted = "true".to_owned();
            lower == wanted
        },
        None => false,
    };
    FormatRules { ensure_final_newline, remove_trailing_spaces, remove_leading_newlines }
}

/// Whether `big` knows everything that `small` knows, and the same of it.
pub open spec fn extends(small: World, big: World) -> bool {
    forall|d: Seq<char>| #[trigger]
        small.contains_key(d) ==> big.contains_key(d) && big[d] == small[d]
}

/// Whether the rules of `file` can be told from `world`: the configs of all
/// directories above the file are known.
pub open spec fn resolvable(world: World, file: Seq<char>) -> bool {
    match parent_of(file) {
        Some(dir) => settled(world, dir),
        None => true,
    }
}

/// How many of `dir` and the directories above it have no known config.
pub open spec fn missing_count(world: World, dir: Seq<char>) -> nat
    decreases dir.len(),
{
    let own: nat = if world.contains_key(dir) {
        0
    } else {
        1
    };
    match parent_of(dir) {
        Some(p) => own + missing_count(world, p),
        None => own,
    }
}

/// What is settled stays settled, with the same stack, when more becomes
/// known.
pub proof fn lemma_settled_frame(small: World, big: World, dir: Seq<char>)
    requires
        extends(small, big),
        settled(small, dir),
    ensures
        settled(big, dir),
        stack_of(big, dir) == stack_of(small, dir),
        missing_count(big, dir) == 0,
    decreases dir.len(),
{
    assert(small.contains_key(dir));
    match parent_of(dir) {
        Some(p) => {
            lemma_settled_frame(small, big, p);
        },
        None => {},
    }
}

/// Of a directory that is not settled, the first missing config is indeed
/// not known, and once it is known less is missing.
pub proof fn lemma_first_missing(world: World, dir: Seq<char>, found: Option<ConfigModel>)
    requires
        !settled(world, dir),
    ensures
        !world.contains_key(first_missing(world, dir)),
        first_missing(world, dir).len() <= dir.len(),
        missing_count(world.insert(first_missing(world, dir), found), dir) < missing_count(
            world,
            dir,
        ),
    decreases dir.len(),
{
    let m = first_missing(world, dir);
    let bigger = world.insert(m, found);
    match parent_of(dir) {
        Some(p) => {
            if settled(world, p) {
                assert(m == dir);
                assert(extends(world, bigger));
                lemma_settled_frame(world, bigger, p);
                lemma_settled_frame(world, world, p);
            } else {
                lemma_first_missing(world, p, found);
                assert(m != dir);
            }
        },
        None => {},
    }
}

/// Whether `dir` is `top` or lies below it.
pub open spec fn is_at_or_below(dir: Seq<char>, top: Seq<char>) -> bool
    decreases dir.len(),
{
    dir == top || match parent_of(dir) {
        Some(p) => is_at_or_below(p, top),
        None => false,
    }
}

/// A config that declares itself root keeps every directory above it out of
/// the resolution of the files beneath it: two trees that have the same
/// configs at and below a root directory give the same stack, whatever
/// either holds further up.
pub proof fn lemma_root_cuts_off_ancestors(
    one: World,
    other: World,
    top: Seq<char>,
    dir: Seq<char>,
)
    requires
        is_at_or_below(dir, top),
        config_at(one, top) matches Some(config) && config.is_root,
        forall|d: Seq<char>| #[trigger]
            is_at_or_below(d, top) ==> config_at(one, d) == config_at(other, d),
    ensures
        stack_of(one, dir) == stack_of(other, dir),
        dir == top ==> stack_of(one, dir) == seq![config_at(one, top).unwrap()],
    decreases dir.len(),
{
    assert(is_at_or_below(top, top));
    if dir == top {
    } else {
        let p = parent_of(dir).unwrap();
        lemma_root_cuts_off_ancestors(one, other, top, p);
    }
}

/// The rules of a file beneath a root config do not depend on anything above
/// that config.
pub proof fn lemma_root_decides_rules(one: World, other: World, top: Seq<char>, file: Seq<char>)
    requires
        parent_of(file) matches Some(dir) && is_at_or_below(dir, top),
        config_at(one, top) matches Some(config) && config.is_root,
        forall|d: Seq<char>| #[trigger]
            is_at_or_below(d, top) ==> config_at(one, d) == config_at(other, d),
    ensures
        resolve(one, file) == resolve(other, file),
{
    lemma_root_cuts_off_ancestors(one, other, top, parent_of(file).unwrap());
}

/// The value that the sections give to `key` for a file whose relative path
/// is `rel`: that of the last section that matches the file and sets the key,
/// or `None` where no matching section sets it.
pub open spec fn last_setting(sections: Seq<SectionModel>, rel: Seq<char>, key: Seq<char>) -> Option<
    Seq<char>,
>
    decreases sections.len(),
{
    if sections.len() == 0 {
        None
    } else if section_glob_matches(sections.last().pattern, rel) && sections.last().props.contains_key(
        key,
    ) {
        Some(sections.last().props[key])
    } else {
        last_setting(sections.drop_last(), rel, key)
    }
}

/// Laying sections over a property map gives each key the value of the last
/// matching section that sets it, and leaves every other key as it was.
pub proof fn lemma_overlay_sections(
    acc: Props,
    sections: Seq<SectionModel>,
    rel: Seq<char>,
    key: Seq<char>,
)
    ensures
        match last_setting(sections, rel, key) {
            Some(value) => overlay_sections(acc, sections, rel).contains_key(key)
                && overlay_sections(acc, sections, rel)[key] == value,
            None => overlay_sections(acc, sections, rel).contains_key(key) == acc.contains_key(key)
                && (acc.contains_key(key) ==> overlay_sections(acc, sections, rel)[key]
                == acc[key]),
        },
    decreases sections.len(),
{
    if sections.len() > 0 {
        lemma_overlay_sections(acc, sections.drop_last(), rel, key);
    }
}

/// The properties that a file in `dir` inherits: what the configs above
/// `dir` give it.
pub open spec fn inherited_props(world: World, dir: Seq<char>, file: Seq<char>) -> Props {
    match parent_of(dir) {
        Some(p) => overlay_stack(Map::empty(), stack_of(world, p), file),
        None => Map::empty(),
    }
}

/// A config that does not declare itself root inherits and overrides key by
/// key. For a file in its directory, a key that one of its matching sections
/// sets has the value of the last such section; every other key has what the
/// configs above give it, and so has the rule that the key stands for.
pub proof fn lemma_child_overrides_and_inherits(
    world: World,
    dir: Seq<char>,
    file: Seq<char>,
    key: Seq<char>,
)
    requires
        parent_of(file) == Some(dir),
        config_at(world, dir) matches Some(config) && !config.is_root,
    ensures
        ({
            let config = config_at(world, dir).unwrap();
            let inherited = inherited_props(world, dir, file);
            let effective = effective_props(world, file);
            match last_setting(config.sections, relative_to(file, config.dir), key) {
                Some(value) => effective.contains_key(key) && effective[key] == value,
                None => effective.contains_key(key) == inherited.contains_key(key) && (
                inherited.contains_key(key) ==> effective[key] == inherited[key])
                    && switched_on(effective, key) == switched_on(inherited, key),
            }
        }),
{
    let config = config_at(world, dir).unwrap();
    let above = match parent_of(dir) {
        Some(p) => stack_of(world, p),
        None => Seq::empty(),
    };
    let stack = stack_of(world, dir);
    assert(stack == above.push(config));
    assert(stack.drop_last() =~= above);
    assert(stack.last() == config);
    let inherited = inherited_props(world, dir, file);
    assert(overlay_stack(Map::empty(), above, file) == inherited);
    lemma_overlay_sections(inherited, config.sections, relative_to(file, config.dir), key);
}

/// The config that an entry of the cache stands for.
spec fn model_of(entry: Option<ParsedConfig>) -> Option<ConfigModel> {
    match entry {
        Some(config) => Some(config@),
        None => None,
    }
}

/// What the loaded entries make known.
spec fn world_of(files: Seq<(String, Option<ParsedConfig>)>) -> World
    decreases files.len(),
{
    if files.len() == 0 {
        Map::empty()
    } else {
        world_of(files.drop_last()).insert(files.last().0@, model_of(files.last().1))
    }
}

/// Whether no directory has two entries.
spec fn unique_keys(files: Seq<(String, Option<ParsedConfig>)>) -> bool {
    forall|i: int, j: int| 0 <= i < j < files.len() ==> (#[trigger] files[i]).0@ != (
    #[trigger] files[j]).0@
}

/// Whether each index of a stack points at an entry that holds a config.
spec fn indices_ok(files: Seq<(String, Option<ParsedConfig>)>, stack: Seq<usize>) -> bool {
    forall|k: int|
        0 <= k < stack.len() ==> (#[trigger] stack[k]) < files.len() && files[stack[k] as int].1
            is Some
}

/// The configs that the indices of a stack point at.
spec fn stack_models(files: Seq<(String, Option<ParsedConfig>)>, stack: Seq<usize>) -> Seq<
    ConfigModel,
> {
    Seq::new(stack.len(), |k: int| files[stack[k] as int].1.unwrap()@)
}

/// Whether a cached stack is that of its directory.
spec fn stack_entry_ok(
    files: Seq<(String, Option<ParsedConfig>)>,
    entry: (String, Vec<usize>),
) -> bool {
    &&& settled(world_of(files), entry.0@)
    &&& indices_ok(files, entry.1@)
    &&& stack_models(files, entry.1@) == stack_of(world_of(files), entry.0@)
}

/// Whether cached rules are those of their file.
spec fn rules_entry_ok(world: World, entry: (String, FormatRules)) -> bool {
    resolvable(world, entry.0@) && entry.1 == resolve(world, entry.0@)
}

/// Each entry is known under its directory, and nothing else is known.
proof fn lemma_world_of(files: Seq<(String, Option<ParsedConfig>)>)
    requires
        unique_keys(files),
    ensures
        forall|i: int|
            0 <= i < files.len() ==> world_of(files).contains_key((#[trigger] files[i]).0@)
                && world_of(files)[files[i].0@] == model_of(files[i].1),
        forall|d: Seq<char>| #[trigger]
            world_of(files).contains_key(d) ==> exists|i: int|
                0 <= i < files.len() && (#[trigger] files[i]).0@ == d,
    decreases files.len(),
{
    if files.len() > 0 {
        let init = files.drop_last();
        assert(unique_keys(init)) by {
            assert forall|i: int, j: int| 0 <= i < j < init.len() implies (#[trigger] init[i]).0@
                != (#[trigger] init[j]).0@ by {
                assert(init[i] == files[i] && init[j] == files[j]);
            }
        }
        lemma_world_of(init);
        assert forall|i: int| 0 <= i < files.len() implies world_of(files).contains_key(
            (#[trigger] files[i]).0@,
        ) && world_of(files)[files[i].0@] == model_of(files[i].1) by {
            if i < files.len() - 1 {
                assert(init[i] == files[i]);
                assert(files[i].0@ != files[files.len() - 1].0@);
            }
        }
        assert forall|d: Seq<char>| #[trigger] world_of(files).contains_key(d) implies exists|
            i: int,
        |
            0 <= i < files.len() && (#[trigger] files[i]).0@ == d by {
            if d == files.last().0@ {
                assert(files[files.len() - 1].0@ == d);
            } else {
                let i = choose|i: int| 0 <= i < init.len() && (#[trigger] init[i]).0@ == d;
                assert(files[i] == init[i]);
            }
        }
    }
}

/// The index of the first entry under `key`, if there is one.
fn position_of<T>(entries: &Vec<(String, T)>, key: &String) -> (found: Option<usize>)
    ensures
        match found {
            Some(i) => i < entries.len() && entries[i as int].0@ == key@,
            None => forall|j: int| 0 <= j < entries.len() ==> (#[trigger] entries[j]).0@ != key@,
        },
{
    let mut i: usize = 0;
    while i < entries.len()
        invariant
            i <= entries.len(),
            forall|j: int| 0 <= j < i ==> (#[trigger] entries[j]).0@ != key@,
        decreases entries.len() - i,
    {
        if entries[i].0 == *key {
            return Some(i);
        }
        i = i + 1;
    }
    None
}

/// A copy of a stack of indices.
fn copy_stack(stack: &Vec<usize>) -> (copy: Vec<usize>)
    ensures
        copy@ == stack@,
{
    let mut copy: Vec<usize> = Vec::new();
    let mut i: usize = 0;
    while i < stack.len()
        invariant
            i <= stack.len(),
            copy@ == stack@.subrange(0, i as int),
        decreases stack.len() - i,
    {
        copy.push(stack[i]);
        proof {
            assert(stack@.subrange(0, i + 1) =~= stack@.subrange(0, i as int).push(stack@[i as int]));
        }
        i = i + 1;
    }
    proof {
        assert(stack@.subrange(0, stack@.len() as int) =~= stack@);
    }
    copy
}

/// What a lookup in the cache comes to.
#[derive(Debug, PartialEq, Eq)]
pub enum Resolution {
    /// The rules of the file.
    Rules(FormatRules),
    /// The rules cannot be told yet: the config of this directory has to be
    /// loaded first.
    NeedsConfig(String),
}

/// Resolves formatting rules for files and remembers what it has worked out:
/// the config of each directory, the stack of each directory, and the rules
/// of each file.
pub struct EditorConfigCache {
    /// Each directory whose config was loaded, with the config, or `None`
    /// where the directory has none that can be used.
    config_files: Vec<(String, Option<ParsedConfig>)>,
    /// Each directory whose stack was worked out, with the stack: indices
    /// into `config_files`, outermost first.
    dir_stacks: Vec<(String, Vec<usize>)>,
    /// Each file whose rules were worked out, with the rules.
    rules_cache: Vec<(String, FormatRules)>,
}

impl EditorConfigCache {
    /// What the cache knows of the tree: each directory whose config was
    /// loaded, with its config.
    pub closed spec fn loaded(&self) -> World {
        world_of(self.config_files@)
    }

    /// Whether what the cache remembers is right: every remembered stack is
    /// the stack of its directory, and every remembered rule set is that of
    /// its file, by what was loaded.
    pub closed spec fn wf(&self) -> bool {
        &&& unique_keys(self.config_files@)
        &&& forall|i: int|
            0 <= i < self.dir_stacks@.len() ==> stack_entry_ok(
                self.config_files@,
                #[trigger] self.dir_stacks@[i],
            )
        &&& forall|i: int|
            0 <= i < self.rules_cache@.len() ==> rules_entry_ok(
                world_of(self.config_files@),
                #[trigger] self.rules_cache@[i],
            )
    }

    /// Creates an empty cache.
    pub fn new() -> (cache: EditorConfigCache)
        ensures
            cache.wf(),
            cache.loaded() == Map::<Seq<char>, Option<ConfigModel>>::empty(),
    {
        EditorConfigCache {
            config_files: Vec::new(),
            dir_stacks: Vec::new(),
            rules_cache: Vec::new(),
        }
    }

    /// Takes in what was found of the config file of directory `dir`: its
    /// bytes, or `None` where the directory has no such file or it could not
    /// be read. A file that does not parse counts as absent. What was
    /// loaded for a directory before stays as it is.
    ///
    /// Returns whether the directory now has a config that can be used.
    pub fn load_config_for_dir(&mut self, dir: &str, content: Option<&[u8]>) -> (usable: bool)
        requires
            old(self).wf(),
        ensures
            final(self).wf(),
            final(self).loaded() == if old(self).loaded().contains_key(dir@) {
                old(self).loaded()
            } else {
                old(self).loaded().insert(
                    dir@,
                    match content {
                        Some(bytes) => config_of(dir@, bytes@),
                        None => None,
                    },
                )
            },
            usable == (final(self).loaded()[dir@] is Some),
    {
        let key = dir.to_owned();
        proof {
            lemma_world_of(self.config_files@);
        }
        match position_of(&self.config_files, &key) {
            Some(i) => {
                return self.config_files[i].1.is_some();
            },
            None => {},
        }
        let parsed = match content {
            Some(bytes) => parse_config_file(dir, bytes),
            None => None,
        };
        let usable = parsed.is_some();
        let ghost before = self.config_files@;
        let ghost small = world_of(before);
        self.config_files.push((key, parsed));
        proof {
            let after = self.config_files@;
            assert(after.drop_last() =~= before);
            let big = world_of(after);
            assert(!small.contains_key(dir@)) by {
                if small.contains_key(dir@) {
                    let i = choose|i: int| 0 <= i < before.len() && (#[trigger] before[i]).0@ == dir@;
                    assert(before[i].0@ == dir@);
                }
            }
            assert(extends(small, big));
            assert(unique_keys(after)) by {
                assert forall|i: int, j: int| 0 <= i < j < after.len() implies (
                #[trigger] after[i]).0@ != (#[trigger] after[j]).0@ by {
                    assert(after[i] == before[i]);
                    if j < before.len() {
                        assert(after[j] == before[j]);
                    }
                }
            }
            assert forall|i: int| 0 <= i < self.dir_stacks@.len() implies stack_entry_ok(
                after,
                #[trigger] self.dir_stacks@[i],
            ) by {
                let entry = self.dir_stacks@[i];
                assert(stack_entry_ok(before, entry));
                lemma_settled_frame(small, big, entry.0@);
                assert forall|k: int| 0 <= k < entry.1@.len() implies (#[trigger] entry.1@[k])
                    < after.len() && after[entry.1@[k] as int].1 is Some by {
                    assert(after[entry.1@[k] as int] == before[entry.1@[k] as int]);
                }
                assert(stack_models(after, entry.1@) =~= stack_models(before, entry.1@)) by {
                    assert forall|k: int| 0 <= k < entry.1@.len() implies stack_models(
                        after,
                        entry.1@,
                    )[k] == stack_models(before, entry.1@)[k] by {
                        assert(after[entry.1@[k] as int] == before[entry.1@[k] as int]);
                    }
                }
            }
            assert forall|i: int| 0 <= i < self.rules_cache@.len() implies rules_entry_ok(
                big,
                #[trigger] self.rules_cache@[i],
            ) by {
                let entry = self.rules_cache@[i];
                assert(rules_entry_ok(small, entry));
                match parent_of(entry.0@) {
                    Some(d) => {
                        lemma_settled_frame(small, big, d);
                    },
                    None => {},
                }
            }
        }
        usable
    }

    /// The stack of `dir`, as indices into the loaded configs, outermost
    /// first; or the directory whose config has to be loaded before the stack
    /// can be told.
    fn stack_for_dir(&mut self, dir: &String) -> (stack: Result<Vec<usize>, String>)
        requires
            old(self).wf(),
        ensures
            final(self).wf(),
            final(self).config_files == old(self).config_files,
            final(self).rules_cache == old(self).rules_cache,
            match stack {
                Ok(indices) => {
                    &&& settled(world_of(old(self).config_files@), dir@)
                    &&& indices_ok(old(self).config_files@, indices@)
                    &&& stack_models(old(self).config_files@, indices@) == stack_of(
                        world_of(old(self).config_files@),
                        dir@,
                    )
                },
                Err(missing) => {
                    &&& !settled(world_of(old(self).config_files@), dir@)
                    &&& missing@ == first_missing(world_of(old(self).config_files@), dir@)
                },
            },
        decreases dir@.len(),
    {
        let ghost files = self.config_files@;
        let ghost world = world_of(files);
        match position_of(&self.dir_stacks, dir) {
            Some(i) => {
                assert(stack_entry_ok(files, self.dir_stacks@[i as int]));
                return Ok(copy_stack(&self.dir_stacks[i].1));
            },
            None => {},
        }
        let mut combined: Vec<usize> = match parent_dir(dir.as_str()) {
            Some(parent) => {
                let parent = parent.to_owned();
                match self.stack_for_dir(&parent) {
                    Ok(indices) => indices,
                    Err(missing) => {
                        return Err(missing);
                    },
                }
            },
            None => Vec::new(),
        };
        proof {
            lemma_world_of(files);
            if parent_of(dir@) is None {
                assert(stack_models(files, combined@) =~= Seq::<ConfigModel>::empty());
            }
        }
        match position_of(&self.config_files, dir) {
            Some(i) => {
                assert(files[i as int].0@ == dir@);
                match &self.config_files[i].1 {
                    Some(config) => {
                        if config.is_root {
                            combined = Vec::new();
                        }
                        let ghost inherited = combined@;
                        combined.push(i);
                        proof {
                            assert(config@.is_root == config.is_root);
                            assert(stack_models(files, combined@) =~= stack_models(
                                files,
                                inherited,
                            ).push(config@));
                            if config.is_root {
                                assert(stack_models(files, inherited) =~= Seq::<
                                    ConfigModel,
                                >::empty());
                            }
                        }
                    },
                    None => {},
                }
            },
            None => {
                proof {
                    if world.contains_key(dir@) {
                        let i = choose|i: int|
                            0 <= i < files.len() && (#[trigger] files[i]).0@ == dir@;
                        assert(files[i].0@ == dir@);
                    }
                }
                return Err(dir.clone());
            },
        }
        let copy = copy_stack(&combined);
        self.dir_stacks.push((dir.clone(), copy));
        proof {
            let stacks = self.dir_stacks@;
            assert forall|i: int| 0 <= i < stacks.len() implies stack_entry_ok(
                files,
                #[trigger] stacks[i],
            ) by {
                if i < stacks.len() - 1 {
                    assert(stacks[i] == stacks.drop_last()[i]);
                }
            }
        }
        Ok(combined)
    }

    /// Resolves the rules for the file at the canonical path
    /// `canonical_path`.
    ///
    /// Returns the rules once the configs of all directories above the file
    /// have been loaded. Until then it returns the directory whose config is
    /// to be loaded next, the outermost one first: load it with
    /// `load_config_for_dir` and ask again. What was resolved is remembered,
    /// so that each directory is worked out once.
    pub fn rules_for(&mut self, canonical_path: &str) -> (found: Resolution)
        requires
            old(self).wf(),
        ensures
            final(self).wf(),
            final(self).loaded() == old(self).loaded(),
            match found {
                Resolution::Rules(rules) => resolvable(old(self).loaded(), canonical_path@)
                    && rules == resolve(old(self).loaded(), canonical_path@),
                Resolution::NeedsConfig(dir) => !resolvable(old(self).loaded(), canonical_path@)
                    && dir@ == first_missing(
                    old(self).loaded(),
                    parent_of(canonical_path@).unwrap(),
                ),
            },
    {
        let path = canonical_path.to_owned();
        let ghost files = self.config_files@;
        let ghost world = world_of(files);
        match position_of(&self.rules_cache, &path) {
            Some(i) => {
                assert(rules_entry_ok(world, self.rules_cache@[i as int]));
                return Resolution::Rules(self.rules_cache[i].1);
            },
            None => {},
        }
        let mut props = new_properties();
        match parent_dir(canonical_path) {
            Some(parent) => {
                let parent = parent.to_owned();
                let stack = match self.stack_for_dir(&parent) {
                    Ok(indices) => indices,
                    Err(missing) => {
                        return Resolution::NeedsConfig(missing);
                    },
                };
                let ghost models = stack_models(files, stack@);
                let mut k: usize = 0;
                proof {
                    assert(models.subrange(0, 0) =~= Seq::<ConfigModel>::empty());
                }
                while k < stack.len()
                    invariant
                        k <= stack.len(),
                        self.config_files@ == files,
                        indices_ok(files, stack@),
                        models == stack_models(files, stack@),
                        props_map(props) == overlay_stack(
                            Map::empty(),
                            models.subrange(0, k as int),
                            canonical_path@,
                        ),
                    decreases stack.len() - k,
                {
                    let index = stack[k];
                    match &self.config_files[index].1 {
                        Some(config) => {
                            config.apply_to(&mut props, canonical_path);
                        },
                        None => {},
                    }
                    proof {
                        let next = models.subrange(0, k + 1);
                        assert(next.drop_last() =~= models.subrange(0, k as int));
                        assert(next.last() == models[k as int]);
                    }
                    k = k + 1;
                }
                proof {
                    assert(models.subrange(0, models.len() as int) =~= models);
                }
            },
            None => {},
        }
        let rules = rules_from_properties(&props);
        self.rules_cache.push((path, rules));
        proof {
            let cached = self.rules_cache@;
            assert forall|i: int| 0 <= i < cached.len() implies rules_entry_ok(
                world,
                #[trigger] cached[i],
            ) by {
                if i < cached.len() - 1 {
                    assert(cached[i] == cached.drop_last()[i]);
                }
            }
        }
        Resolution::Rules(rules)
    }
}

/// A hierarchy config file as it was read: the directory that holds it, and
/// its bytes.
pub struct ConfigFile {
    /// The directory that holds the file.
    pub dir: String,
    /// The bytes of the file.
    pub content: Vec<u8>,
}

/// The bytes of the first of `files` that lies in `dir`, if there is one.
pub open spec fn content_for(files: Seq<ConfigFile>, dir: Seq<char>) -> Option<Seq<u8>>
    decreases files.len(),
{
    if files.len() == 0 {
        None
    } else if files[0].dir@ == dir {
        Some(files[0].content@)
    } else {
        content_for(files.drop_first(), dir)
    }
}

/// What `files` make known of a tree: each directory has the config that its
/// file parses to, and a directory without a file among them has none.
pub open spec fn world_from(files: Seq<ConfigFile>) -> World {
    Map::new(
        |dir: Seq<char>| true,
        |dir: Seq<char>|
            match content_for(files, dir) {
                Some(content) => config_of(dir, content),
                None => None,
            },
    )
}

/// The rules for the file at `path`, given the config files above it: the
/// default rules where the file has no canonical path.
pub open spec fn rules_for_path(path: Option<&str>, files: Seq<ConfigFile>) -> FormatRules {
    match path {
        Some(p) => resolve(world_from(files), p@),
        None => FormatRules::none(),
    }
}

/// The index of the first of `files` that lies in `dir`, if there is one.
fn find_config_file(files: &Vec<ConfigFile>, dir: &String) -> (found: Option<usize>)
    ensures
        match found {
            Some(i) => i < files.len() && content_for(files@, dir@) == Some(files[i as int].content@),
            None => content_for(files@, dir@) is None,
        },
{
    let mut i: usize = 0;
    proof {
        assert(files@.subrange(0, files@.len() as int) =~= files@);
    }
    while i < files.len()
        invariant
            i <= files.len(),
            content_for(files@, dir@) == content_for(
                files@.subrange(i as int, files@.len() as int),
                dir@,
            ),
        decreases files.len() - i,
    {
        proof {
            let rest = files@.subrange(i as int, files@.len() as int);
            assert(rest[0] == files@[i as int]);
            assert(rest.drop_first() =~= files@.subrange(i + 1, files@.len() as int));
        }
        if files[i].dir == *dir {
            return Some(i);
        }
        i = i + 1;
    }
    None
}

/// Resolves the rules for one file from the config files found above it.
///
/// `path` is the canonical path of the file, or `None` where the path could
/// not be made canonical: such a file gets the default rules, all off.
/// `files` are the hierarchy config files of the directories above the file;
/// a directory without a file among them has no config.
///
/// The properties `insert_final_newline`, `trim_trailing_whitespace` and
/// `trim_leading_newlines` give the rules `ensure_final_newline`,
/// `remove_trailing_spaces` and `remove_leading_newlines`. A rule is on where
/// its property is `true`; `false`, `unset`, any other value and no value
/// leave it off.
pub fn get_format_rules(path: Option<&str>, files: &Vec<ConfigFile>) -> (rules: FormatRules)
    ensures
        rules == rules_for_path(path, files@),
{
    let resolved = match path {
        Some(resolved) => resolved,
        None => {
            return FormatRules::default();
        },
    };
    let ghost world = world_from(files@);
    let mut cache = EditorConfigCache::new();
    loop
        invariant
            path == Some(resolved),
            cache.wf(),
            world == world_from(files@),
            extends(cache.loaded(), world),
        decreases
            match parent_of(resolved@) {
                Some(dir) => missing_count(cache.loaded(), dir),
                None => 0,
            },
    {
        let ghost known = cache.loaded();
        match cache.rules_for(resolved) {
            Resolution::Rules(rules) => {
                proof {
                    match parent_of(resolved@) {
                        Some(dir) => {
                            lemma_settled_frame(known, world, dir);
                        },
                        None => {},
                    }
                }
                return rules;
            },
            Resolution::NeedsConfig(dir) => {
                proof {
                    let above = parent_of(resolved@).unwrap();
                    lemma_first_missing(
                        known,
                        above,
                        match content_for(files@, dir@) {
                            Some(content) => config_of(dir@, content),
                            None => None,
                        },
                    );
                }
                match find_config_file(files, &dir) {
                    Some(i) => {
                        cache.load_config_for_dir(dir.as_str(), Some(files[i].content.as_slice()));
                    },
                    None => {
                        cache.load_config_for_dir(dir.as_str(), None);
                    },
                }
            },
        }
    }
}

} // verus!
