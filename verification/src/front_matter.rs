//! The metadata block that a document may begin with: a first line that
//! holds exactly `---`, then `key: value` lines up to a line that holds only
//! `---` and white space.

use crate::text::{
    chars_of, find_char, first_index, has_prefix, lemma_first_index, same_chars, spells,
    starts_with_at, string_of, sub_chars, text_view, trim, trim_chars,
};
use vstd::prelude::*;

verus! {

/// The metadata of one document. A field that the document does not give,
/// or gives in a form that cannot be read, is absent.
#[derive(Clone, Debug, PartialEq, Eq)]
pub struct FrontMatter {
    pub sidebar_title: Option<String>,
    pub visible_in_sidebar: Option<bool>,
    pub page_title: Option<String>,
    pub order: Option<i32>,
}

/// What a `FrontMatter` holds, as mathematical values.
pub struct FrontMatterView {
    pub sidebar_title: Option<Seq<char>>,
    pub visible_in_sidebar: Option<bool>,
    pub page_title: Option<Seq<char>>,
    pub order: Option<i32>,
}

impl View for FrontMatter {
    type V = FrontMatterView;

    open spec fn view(&self) -> FrontMatterView {
        FrontMatterView {
            sidebar_title: text_view(self.sidebar_title),
            visible_in_sidebar: self.visible_in_sidebar,
            page_title: text_view(self.page_title),
            order: self.order,
        }
    }
}

/// The metadata in which every field is absent.
pub open spec fn no_front_matter() -> FrontMatterView {
    FrontMatterView { sidebar_title: None, visible_in_sidebar: None, page_title: None, order: None }
}

impl FrontMatter {
    /// The metadata in which every field is absent.
    pub fn absent() -> (fm: FrontMatter)
        ensures
            fm@ == no_front_matter(),
    {
        FrontMatter { sidebar_title: None, visible_in_sidebar: None, page_title: None, order: None }
    }
}

/// The three characters that a misread em dash turns into: the bytes of its
/// UTF-8 form, each taken for a character of Windows-1252.
pub open spec fn misread_dash() -> Seq<char> {
    seq!['\u{e2}', '\u{20ac}', '\u{201d}']
}

/// `s` with every misread em dash, found from left to right, replaced by a
/// hyphen.
pub open spec fn normalize(s: Seq<char>) -> Seq<char>
    decreases s.len(),
{
    if s.len() == 0 {
        s
    } else if has_prefix(s, misread_dash()) {
        seq!['-'] + normalize(s.skip(3))
    } else {
        seq![s[0]] + normalize(s.drop_first())
    }
}

/// `chars` with every misread em dash replaced by a hyphen.
pub fn normalize_chars(chars: &Vec<char>) -> (clean: Vec<char>)
    ensures
        clean@ == normalize(chars@),
{
    let mut pattern: Vec<char> = Vec::new();
    pattern.push('\u{e2}');
    pattern.push('\u{20ac}');
    pattern.push('\u{201d}');
    let mut clean: Vec<char> = Vec::new();
    let mut at: usize = 0;
    assert(chars@.skip(0) =~= chars@);
    while at < chars.len()
        invariant
            at <= chars.len(),
            pattern@ == misread_dash(),
            clean@ + normalize(chars@.skip(at as int)) == normalize(chars@),
        decreases chars.len() - at,
    {
        let ghost rest = chars@.skip(at as int);
        if starts_with_at(chars, at, &pattern) {
            assert(rest.skip(3) =~= chars@.skip(at + 3));
            clean.push('-');
            at += 3;
        } else {
            assert(rest.drop_first() =~= chars@.skip(at + 1));
            clean.push(chars[at]);
            at += 1;
        }
    }
    clean
}

/// What a value of `visible_in_sidebar` means: `true` and `false` are read,
/// anything else is not.
pub open spec fn parse_bool(s: Seq<char>) -> Option<bool> {
    if s == "true"@ {
        Some(true)
    } else if s == "false"@ {
        Some(false)
    } else {
        None
    }
}

/// Reads a value of `visible_in_sidebar`.
pub fn parse_bool_chars(chars: &Vec<char>) -> (value: Option<bool>)
    ensures
        value == parse_bool(chars@),
{
    if spells(chars, "true") {
        Some(true)
    } else if spells(chars, "false") {
        Some(false)
    } else {
        None
    }
}

/// Whether `c` is one of the digits `0` to `9`.
pub open spec fn is_digit(c: char) -> bool {
    48 <= c as u32 <= 57
}

/// Whether `s` holds digits only.
pub open spec fn all_digits(s: Seq<char>) -> bool {
    forall|i: int| 0 <= i < s.len() ==> is_digit(#[trigger] s[i])
}

/// The number that the digits `s` write in decimal.
pub open spec fn digits_value(s: Seq<char>) -> int
    decreases s.len(),
{
    if s.len() == 0 {
        0
    } else {
        digits_value(s.drop_last()) * 10 + (s.last() as u32 - 48)
    }
}

/// What a value of `order` means: an optional sign, `+` or `-`, then one or
/// more digits, read in decimal; absent where the text has another form or
/// the number does not fit in 32 bits.
pub open spec fn parse_int(s: Seq<char>) -> Option<i32> {
    let signed = s.len() > 0 && (s[0] == '-' || s[0] == '+');
    let digits = if signed {
        s.drop_first()
    } else {
        s
    };
    let value = if s.len() > 0 && s[0] == '-' {
        -digits_value(digits)
    } else {
        digits_value(digits)
    };
    if digits.len() > 0 && all_digits(digits) && i32::MIN <= value <= i32::MAX {
        Some(value as i32)
    } else {
        None
    }
}

proof fn lemma_digits_value_grows(s: Seq<char>, k: int)
    requires
        all_digits(s),
        0 <= k <= s.len(),
    ensures
        0 <= digits_value(s.take(k)) <= digits_value(s),
    decreases s.len() - k,
{
    if k == s.len() {
        assert(s.take(k) =~= s);
        lemma_digits_value_nonnegative(s);
    } else {
        assert(s.take(k + 1).drop_last() =~= s.take(k));
        lemma_digits_value_nonnegative(s.take(k));
        lemma_digits_value_grows(s, k + 1);
    }
}

proof fn lemma_digits_value_nonnegative(s: Seq<char>)
    requires
        all_digits(s),
    ensures
        0 <= digits_value(s),
    decreases s.len(),
{
    if s.len() > 0 {
        lemma_digits_value_nonnegative(s.drop_last());
    }
}

/// Reads a value of `order`.
pub fn parse_int_chars(chars: &Vec<char>) -> (value: Option<i32>)
    ensures
        value == parse_int(chars@),
{
    let n = chars.len();
    if n == 0 {
        return None;
    }
    let negative = chars[0] == '-';
    let start: usize = if chars[0] == '-' || chars[0] == '+' {
        1
    } else {
        0
    };
    let ghost digits = if start == 1 {
        chars@.drop_first()
    } else {
        chars@
    };
    let mut magnitude: i64 = 0;
    let mut at: usize = start;
    while at < n
        invariant
            start <= at <= n == chars.len(),
            n > 0,
            start == 1 <==> chars@[0] == '-' || chars@[0] == '+',
            start == 0 || start == 1,
            digits == chars@.skip(start as int),
            digits == if start == 1 {
                chars@.drop_first()
            } else {
                chars@
            },
            all_digits(digits.take(at - start)),
            magnitude == digits_value(digits.take(at - start)),
            0 <= magnitude <= 2147483648,
        decreases n - at,
    {
        let code: u32 = chars[at] as u32;
        if code < 48 || code > 57 {
            assert(digits[at - start] == chars@[at as int]);
            return None;
        }
        let digit: i64 = (code - 48) as i64;
        let ghost longer = digits.take(at - start + 1);
        assert(longer.drop_last() =~= digits.take(at - start));
        if magnitude * 10 + digit > 2147483648 {
            proof {
                if all_digits(digits) {
                    lemma_digits_value_grows(digits, at - start + 1);
                }
            }
            return None;
        }
        magnitude = magnitude * 10 + digit;
        at += 1;
    }
    assert(digits.take(n - start) =~= digits);
    if at == start {
        return None;
    }
    if negative {
        Some((-magnitude) as i32)
    } else if magnitude <= 2147483647 {
        Some(magnitude as i32)
    } else {
        None
    }
}

/// `s` without one pair of quotation marks around it: where `s` begins and
/// ends with the same mark, `"` or `'`, both are taken off; otherwise `s` is
/// left as it is.
pub open spec fn unquote(s: Seq<char>) -> Seq<char> {
    if s.len() >= 2 && s.first() == s.last() && (s.first() == '"' || s.first() == '\'') {
        s.subrange(1, s.len() - 1)
    } else {
        s
    }
}

/// `chars` without one pair of quotation marks around it.
pub fn unquote_chars(chars: &Vec<char>) -> (inner: Vec<char>)
    ensures
        inner@ == unquote(chars@),
{
    let n = chars.len();
    if n >= 2 && chars[0] == chars[n - 1] && (chars[0] == '"' || chars[0] == '\'') {
        sub_chars(chars, 1, n - 1)
    } else {
        sub_chars(chars, 0, n)
    }
}

/// `fm` after the entry `key: value`. The two titles take the value as it
/// stands; `visible_in_sidebar` and `order` take what the value means, and
/// become absent where it means nothing; any other key changes nothing.
pub open spec fn with_field(fm: FrontMatterView, key: Seq<char>, value: Seq<char>)
    -> FrontMatterView {
    if key == "sidebar_title"@ {
        FrontMatterView { sidebar_title: Some(value), ..fm }
    } else if key == "page_title"@ {
        FrontMatterView { page_title: Some(value), ..fm }
    } else if key == "visible_in_sidebar"@ {
        FrontMatterView { visible_in_sidebar: parse_bool(value), ..fm }
    } else if key == "order"@ {
        FrontMatterView { order: parse_int(value), ..fm }
    } else {
        fm
    }
}

/// `fm` after one line of the block, given without the white space around
/// it. An empty line, a line that starts with `#` and a line without a colon
/// change nothing. Any other line is an entry: its key is what stands before
/// the first colon, its value what stands after it, each without the white
/// space around it, and the value without one pair of quotation marks.
pub open spec fn with_entry(fm: FrontMatterView, line: Seq<char>) -> FrontMatterView {
    let colon = first_index(line, ':');
    if line.len() == 0 || line[0] == '#' || colon == line.len() {
        fm
    } else {
        with_field(fm, trim(line.take(colon)), unquote(trim(line.skip(colon + 1))))
    }
}

/// The number of characters before the first line feed of `s`.
pub open spec fn line_length(s: Seq<char>) -> int {
    first_index(s, '\n')
}

/// The first line of `s`, without its line feed.
pub open spec fn first_line(s: Seq<char>) -> Seq<char> {
    s.take(line_length(s))
}

/// What follows the first line of `s` and its line feed.
pub open spec fn after_line(s: Seq<char>) -> Seq<char> {
    if line_length(s) < s.len() {
        s.skip(line_length(s) + 1)
    } else {
        Seq::empty()
    }
}

/// Whether `line` closes the block: it holds `---` and nothing else but
/// white space around it.
pub open spec fn is_delimiter(line: Seq<char>) -> bool {
    trim(line) == "---"@
}

/// `fm` after the lines of `rest`, taken in order up to the first delimiter
/// line or, where there is none, to the end.
pub open spec fn with_block(fm: FrontMatterView, rest: Seq<char>) -> FrontMatterView
    decreases rest.len(),
{
    if rest.len() == 0 {
        fm
    } else if is_delimiter(first_line(rest)) {
        fm
    } else {
        proof {
            lemma_first_index(rest, '\n');
        }
        with_block(with_entry(fm, trim(first_line(rest))), after_line(rest))
    }
}

/// The first line of `text` as it counts for opening the block: where a
/// carriage return stands before its line feed, without it.
pub open spec fn opening_line(text: Seq<char>) -> Seq<char> {
    let line = first_line(text);
    if line_length(text) < text.len() && line.len() > 0 && line.last() == '\r' {
        line.drop_last()
    } else {
        line
    }
}

/// The metadata of a document. Only a text whose first line is exactly the
/// three characters `---` has any: a line that holds more, be it white
/// space, opens nothing. The lines after it are the block. Of two entries
/// with one key the later one counts.
pub open spec fn parse_front_matter(text: Seq<char>) -> FrontMatterView {
    if opening_line(text) == "---"@ {
        with_block(no_front_matter(), after_line(text))
    } else {
        no_front_matter()
    }
}

fn set_field(fm: &mut FrontMatter, key: &Vec<char>, value: &Vec<char>)
    ensures
        final(fm)@ == with_field(old(fm)@, key@, value@),
{
    if spells(key, "sidebar_title") {
        fm.sidebar_title = Some(string_of(value));
    } else if spells(key, "page_title") {
        fm.page_title = Some(string_of(value));
    } else if spells(key, "visible_in_sidebar") {
        fm.visible_in_sidebar = parse_bool_chars(value);
    } else if spells(key, "order") {
        fm.order = parse_int_chars(value);
    }
}

fn set_entry(fm: &mut FrontMatter, line: &Vec<char>)
    ensures
        final(fm)@ == with_entry(old(fm)@, line@),
{
    if line.len() == 0 || line[0] == '#' {
        return ;
    }
    let colon = find_char(line, 0, ':');
    assert(line@.skip(0) =~= line@);
    if colon == line.len() {
        return ;
    }
    let before = sub_chars(line, 0, colon);
    let after = sub_chars(line, colon + 1, line.len());
    let key = trim_chars(&before);
    let trimmed = trim_chars(&after);
    let value = unquote_chars(&trimmed);
    set_field(fm, &key, &value);
}

/// Reads the metadata of a document given as its characters.
pub fn parse_chars(chars: &Vec<char>) -> (fm: FrontMatter)
    ensures
        fm@ == parse_front_matter(chars@),
{
    let mut fm = FrontMatter::absent();
    let marker = chars_of("---");
    assert(chars@.skip(0) =~= chars@);
    let first_end = find_char(chars, 0, '\n');
    let opening_end: usize = if first_end < chars.len() && first_end > 0 && chars[first_end - 1]
        == '\r' {
        first_end - 1
    } else {
        first_end
    };
    let opening = sub_chars(chars, 0, opening_end);
    assert(opening@ =~= opening_line(chars@));
    if !same_chars(&opening, &marker) {
        return fm;
    }
    let mut at: usize = if first_end < chars.len() {
        first_end + 1
    } else {
        first_end
    };
    while at < chars.len()
        invariant
            at <= chars.len(),
            marker@ == "---"@,
            with_block(fm@, chars@.skip(at as int)) == parse_front_matter(chars@),
        decreases chars.len() - at,
    {
        let ghost rest = chars@.skip(at as int);
        let end = find_char(chars, at, '\n');
        let line = sub_chars(chars, at, end);
        assert(line@ =~= first_line(rest));
        let trimmed = trim_chars(&line);
        if same_chars(&trimmed, &marker) {
            return fm;
        }
        set_entry(&mut fm, &trimmed);
        let next: usize = if end < chars.len() {
            end + 1
        } else {
            end
        };
        assert(chars@.skip(next as int) =~= after_line(rest));
        at = next;
    }
    fm
}

/// Reads the metadata of a document from its text as it stands.
pub fn parse(content: &str) -> (fm: FrontMatter)
    ensures
        fm@ == parse_front_matter(content@),
{
    let chars = chars_of(content);
    parse_chars(&chars)
}

/// Reads the metadata of a document as it comes from a file: misread em
/// dashes are put right first.
pub fn parse_document(content: &str) -> (fm: FrontMatter)
    ensures
        fm@ == parse_front_matter(normalize(content@)),
{
    let chars = chars_of(content);
    let clean = normalize_chars(&chars);
    parse_chars(&clean)
}

} // verus!
