use vstd::prelude::*;

verus! {

#[verifier::external_type_specification]
#[verifier::external_body]
pub struct ExRegex(regex::Regex);

/// Brace-delimited blocks with no brace inside.
pub const BLOCK_PATTERN: &'static str = "\\{[^{}]*\\}";

/// A `css` run up to `hover`, with no brace inside.
pub const HOVER_PATTERN: &'static str = "css[^{}]*hover";

/// Runs of spaces.
pub const SPACES_PATTERN: &'static str = " +";

/// A compiled regular expression together with the pattern it came from.
pub struct Pattern {
    re: regex::Regex,
    source: String,
}

impl View for Pattern {
    type V = Seq<char>;

    closed spec fn view(&self) -> Seq<char> {
        self.source@
    }
}

/// A text with each occurrence of `from` replaced by `to`.
pub open spec fn char_replaced(s: Seq<char>, from: char, to: char) -> Seq<char> {
    s.map_values(|c: char| if c == from { to } else { c })
}

/// The text with every leftmost-first, non-overlapping match of the pattern
/// replaced, as the regex crate does it.
pub uninterp spec fn regex_replaced(pattern: Seq<char>, text: Seq<char>, rep: Seq<char>) -> Seq<char>;

/// Relies on str::replace with a `char` pattern: every occurrence of the
/// character is replaced, every other character kept.
#[verifier::external_body]
fn replace_char(s: &str, from: char, to: char) -> (r: String)
    ensures
        r@ == char_replaced(s@, from, to),
{
    s.replace(from, to.encode_utf8(&mut [0u8; 4]))
}

/// Relies on regex::Regex::new: `None` where the pattern is refused. The
/// three patterns of the cleanup are valid regex syntax and compile.
#[verifier::external_body]
fn compile_pattern(pattern: &str) -> (r: Option<Pattern>)
    ensures
        r matches Some(p) ==> p@ == pattern@,
        pattern@ == BLOCK_PATTERN@ || pattern@ == HOVER_PATTERN@ || pattern@ == SPACES_PATTERN@
            ==> r is Some,
{
    let re = regex::Regex::new(pattern).ok()?;
    Some(Pattern { re, source: pattern.to_string() })
}

/// Relies on regex::Regex::replace_all: every leftmost-first,
/// non-overlapping match replaced by `rep`, a function of the pattern and
/// the two texts alone.
#[verifier::external_body]
fn replace_matches(p: &Pattern, text: &str, rep: &str) -> (r: String)
    ensures
        r@ == regex_replaced(p@, text@, rep@),
{
    p.re.replace_all(text, rep).into_owned()
}

/// The cleaned text: line breaks and tabs become spaces, then each
/// brace-delimited block and each `css...hover` run becomes a space, then
/// runs of spaces collapse to one.
pub open spec fn cleaned(s: Seq<char>) -> Seq<char> {
    let plain = char_replaced(char_replaced(char_replaced(s, '\n', ' '), '\t', ' '), '\r', ' ');
    let no_blocks = regex_replaced(BLOCK_PATTERN@, plain, " "@);
    let no_hover = regex_replaced(HOVER_PATTERN@, no_blocks, " "@);
    regex_replaced(SPACES_PATTERN@, no_hover, " "@)
}

/// Cleans fetched HTML before parsing: line breaks and tabs become spaces,
/// each brace-delimited block and each `css...hover` run becomes a space,
/// and runs of spaces collapse to one.
pub fn remove_unuseful_chars(text: &str) -> (r: String)
    ensures
        r@ == cleaned(text@),
{
    let a = replace_char(text, '\n', ' ');
    let b = replace_char(a.as_str(), '\t', ' ');
    let c = replace_char(b.as_str(), '\r', ' ');
    let blocks = compile_pattern(BLOCK_PATTERN).unwrap();
    let hover = compile_pattern(HOVER_PATTERN).unwrap();
    let spaces = compile_pattern(SPACES_PATTERN).unwrap();
    let d = replace_matches(&blocks, c.as_str(), " ");
    let e = replace_matches(&hover, d.as_str(), " ");
    replace_matches(&spaces, e.as_str(), " ")
}

} // verus!
