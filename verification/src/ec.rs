//! What the resolver takes from the `ec4rs` crate: parsed sections, the
//! property map they are merged into, and the parser that reads them.
//!
//! Nothing in this file is proved. Each item states what the crate's code
//! does, over names for what its values hold.

use ec4rs::property::{FinalNewline, TrimTrailingWs};
use ec4rs::{ConfigParser, Properties, PropertiesSource, Section};
use vstd::prelude::*;

verus! {

/// One section of a hierarchy config file, as `ec4rs` holds it.
#[verifier::external_type_specification]
#[verifier::external_body]
pub struct ExSection(Section);

/// The map of property names to values of `ec4rs`.
#[verifier::external_type_specification]
#[verifier::external_body]
pub struct ExProperties(Properties);

/// The parser of `ec4rs` (`ConfigParser`) at work on the bytes of one config
/// file, past the preamble.
#[verifier::external_body]
pub struct SectionReader<'a> {
    inner: ConfigParser<&'a [u8]>,
}

/// The glob pattern that the section was made with: the text between the
/// brackets of its header.
pub uninterp spec fn section_pattern(s: Section) -> Seq<char>;

/// The properties that the section holds: each key with its value.
pub uninterp spec fn section_props(s: Section) -> Map<Seq<char>, Seq<char>>;

/// The pairs that the property map holds: each key with its value.
pub uninterp spec fn props_map(p: Properties) -> Map<Seq<char>, Seq<char>>;

/// Whether a section with the glob pattern `pattern` applies to a file at
/// `path`, by the glob matcher of `ec4rs`. The path is read in the path
/// syntax of the platform.
pub uninterp spec fn section_glob_matches(pattern: Seq<char>, path: Seq<char>) -> bool;

/// What `str::to_lowercase` makes of a text: its lowercase equivalent by the
/// Unicode property `Lowercase`.
pub uninterp spec fn lowercased(s: Seq<char>) -> Seq<char>;

/// What `ConfigParser::new` makes of the bytes of a config file. `None` where
/// reading the preamble (the lines before the first section) fails. Else the
/// `root` flag that the preamble sets (`false` if it sets none), and the
/// sections that the parser then hands out, in order: the pattern and the
/// properties of each, up to and including the first one that fails to parse,
/// which stands as `None`.
pub uninterp spec fn parsed_config(content: Seq<u8>) -> Option<
    (bool, Seq<Option<(Seq<char>, Map<Seq<char>, Seq<char>>)>>),
>;

/// The sections that the parser has yet to hand out, in order: the pattern
/// and the properties of each, up to and including the first one that fails
/// to parse, which stands as `None`.
pub uninterp spec fn parser_pending(p: SectionReader) -> Seq<
    Option<(Seq<char>, Map<Seq<char>, Seq<char>>)>,
>;

/// The property map that holds nothing.
pub open spec fn empty_props() -> Map<Seq<char>, Seq<char>> {
    Map::empty()
}

/// A boolean property value as `ec4rs` reads it from lowercased text.
pub open spec fn parse_bool(lower: Seq<char>) -> Option<bool> {
    if lower == "true"@ {
        Some(true)
    } else if lower == "false"@ {
        Some(false)
    } else {
        None
    }
}

/// The value of a boolean property in a property map: `None` where the key is
/// absent, its value is empty, or the value is neither `true` nor `false`
/// once lowercased.
pub open spec fn bool_property(props: Map<Seq<char>, Seq<char>>, key: Seq<char>) -> Option<bool> {
    if props.contains_key(key) && props[key].len() > 0 {
        parse_bool(lowercased(props[key]))
    } else {
        None
    }
}

/// `Properties::new` makes an empty property map.
#[verifier::external_body]
pub(crate) fn new_properties() -> (props: Properties)
    ensures
        props_map(props) == empty_props(),
{
    Properties::new()
}

/// `PropertiesSource::apply_to` for a section: where the section's glob
/// matches `rel_path`, each of the section's pairs is set in `props`, taking
/// the place of any value that its key had; where it does not match, `props`
/// stays as it is.
#[verifier::external_body]
pub(crate) fn apply_section(section: &Section, props: &mut Properties, rel_path: &str)
    ensures
        props_map(*final(props)) == if section_glob_matches(section_pattern(*section), rel_path@) {
            props_map(*old(props)).union_prefer_right(section_props(*section))
        } else {
            props_map(*old(props))
        },
{
    let _ = section.apply_to(props, rel_path);
}

/// `Properties::get` for `insert_final_newline`: the value of that key read
/// as a boolean.
#[verifier::external_body]
pub(crate) fn final_newline(props: &Properties) -> (value: Option<bool>)
    ensures
        value == bool_property(props_map(*props), "insert_final_newline"@),
{
    props.get::<FinalNewline>().ok().map(|FinalNewline::Value(b)| b)
}

/// `Properties::get` for `trim_trailing_whitespace`: the value of that key
/// read as a boolean.
#[verifier::external_body]
pub(crate) fn trim_trailing_ws(props: &Properties) -> (value: Option<bool>)
    ensures
        value == bool_property(props_map(*props), "trim_trailing_whitespace"@),
{
    props.get::<TrimTrailingWs>().ok().map(|TrimTrailingWs::Value(b)| b)
}

/// `Properties::get_raw_for_key` followed by `RawValue::into_option`: the
/// value that `key` has in the map, or `None` where the key is absent or its
/// value is empty.
#[verifier::external_body]
pub(crate) fn raw_value<'a>(props: &'a Properties, key: &str) -> (value: Option<&'a str>)
    ensures
        match value {
            Some(v) => props_map(*props).contains_key(key@) && props_map(*props)[key@] == v@
                && v@.len() > 0,
            None => !props_map(*props).contains_key(key@) || props_map(*props)[key@].len() == 0,
        },
{
    props.get_raw_for_key(key).into_option()
}

/// `str::to_lowercase` of the standard library.
#[verifier::external_body]
pub(crate) fn to_lowercase(s: &str) -> (lower: String)
    ensures
        lower@ == lowercased(s@),
{
    s.to_lowercase()
}

/// `ConfigParser::new` on the bytes of a config file: reads the preamble and
/// hands back the `root` flag with the parser, which stands before the first
/// section; `None` where the preamble cannot be read.
#[verifier::external_body]
pub(crate) fn open_parser<'a>(content: &'a [u8]) -> (opened: Option<(bool, SectionReader<'a>)>)
    ensures
        match opened {
            Some((is_root, parser)) => parsed_config(content@) == Some(
                (is_root, parser_pending(parser)),
            ),
            None => parsed_config(content@) is None,
        },
{
    ConfigParser::new(content).ok().map(|p| (p.is_root, SectionReader { inner: p }))
}

/// `ConfigParser::next`: the next section of the file. `None` at the end of
/// the file, `Some(None)` where the section fails to parse.
#[verifier::external_body]
pub(crate) fn next_section(parser: &mut SectionReader) -> (next: Option<Option<Section>>)
    ensures
        match next {
            Some(Some(section)) => parser_pending(*old(parser)) == seq![
                Some((section_pattern(section), section_props(section))),
            ] + parser_pending(*final(parser)),
            Some(None) => parser_pending(*old(parser)).len() == 1 && parser_pending(
                *old(parser),
            )[0] is None,
            None => parser_pending(*old(parser)).len() == 0 && parser_pending(*final(parser)).len()
                == 0,
        },
{
    parser.inner.next().map(|r| r.ok())
}

} // verus!
