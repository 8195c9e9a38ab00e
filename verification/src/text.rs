//! Strings the plugin shows or hands to the shell: pane labels, numbers,
//! key hints, file paths and commands.
use vstd::prelude::*;
use vstd::utf8::encode_utf8;
use crate::model::Pane;
use crate::fuzzy::lemma_encode_utf8_concat;

verus! {

/// Appends `c` to `s` (`String::push`).
#[verifier::external_body]
pub(crate) fn push_char(s: &mut String, c: char)
    ensures
        final(s)@ == old(s)@.push(c),
{
    s.push(c)
}

/// Removes the last character of `s` and returns it, or returns `None` when
/// `s` is empty (`String::pop`).
#[verifier::external_body]
pub(crate) fn pop_char(s: &mut String) -> (r: Option<char>)
    ensures
        old(s)@.len() == 0 ==> r is None && final(s)@ == old(s)@,
        old(s)@.len() > 0 ==> r == Some(old(s)@.last()) && final(s)@ == old(s)@.drop_last(),
{
    s.pop()
}

/// The label of a pane: its tab name and title.
pub open spec fn pane_label(p: Pane) -> Seq<char> {
    p.tab_info.name@ + " | "@ + p.pane_info.title@
}

impl Pane {
    /// The label shown for the pane: `"<tab name> | <pane title>"`.
    pub fn label(&self) -> (r: String)
        ensures
            r@ == pane_label(*self),
    {
        let mut s = self.tab_info.name.clone();
        s.append(" | ");
        s.append(self.pane_info.title.as_str());
        s
    }
}

/// The decimal digits of `n`.
pub open spec fn decimal(n: nat) -> Seq<char>
    decreases n,
{
    if n < 10 {
        seq![((48 + n) as u8) as char]
    } else {
        decimal(n / 10).push(((48 + n % 10) as u8) as char)
    }
}

/// Appends the decimal digits of `n` to `s`.
pub fn push_decimal(s: &mut String, n: u64)
    ensures
        final(s)@ == old(s)@ + decimal(n as nat),
    decreases n,
{
    if n >= 10 {
        push_decimal(s, n / 10);
    }
    let d = (n % 10) as u8;
    push_char(s, (48u8 + d) as char);
    assert(s@ =~= old(s)@ + decimal(n as nat));
}

/// The decimal representation of `n`.
pub fn decimal_string(n: u64) -> (r: String)
    ensures
        r@ == decimal(n as nat),
{
    let mut s = String::new();
    push_decimal(&mut s, n);
    assert(s@ =~= decimal(n as nat));
    s
}

/// Number of bytes of the UTF-8 encoding of `s`.
pub open spec fn byte_len(s: Seq<char>) -> int {
    encode_utf8(s).len() as int
}

/// Byte length of a string (`str::len`).
pub fn string_byte_len(s: &String) -> (r: usize)
    ensures
        r as int == byte_len(s@),
{
    s.as_str().as_bytes().len()
}

/// The hint line built from `(key, description)` parts joined by `sep`.
pub open spec fn hint_text(parts: Seq<(Seq<char>, Seq<char>)>, sep: Seq<char>) -> Seq<char>
    decreases parts.len(),
{
    if parts.len() == 0 {
        seq![]
    } else {
        hint_key_start_text(parts, sep) + parts.last().0 + parts.last().1
    }
}

/// The hint line up to where the last part's key begins.
pub open spec fn hint_key_start_text(parts: Seq<(Seq<char>, Seq<char>)>, sep: Seq<char>) -> Seq<char>
    decreases parts.len(), 0int,
{
    if parts.len() <= 1 {
        seq![]
    } else {
        hint_text(parts.drop_last(), sep) + sep
    }
}

/// The byte range of each part's key in the hint line.
pub open spec fn hint_key_ranges(parts: Seq<(Seq<char>, Seq<char>)>, sep: Seq<char>) -> Seq<(int, int)>
    decreases parts.len(),
{
    if parts.len() == 0 {
        seq![]
    } else {
        let start = byte_len(hint_key_start_text(parts, sep));
        hint_key_ranges(parts.drop_last(), sep).push((start, start + byte_len(parts.last().0)))
    }
}

/// One key range per part.
pub proof fn lemma_hint_key_ranges_len(parts: Seq<(Seq<char>, Seq<char>)>, sep: Seq<char>)
    ensures
        hint_key_ranges(parts, sep).len() == parts.len(),
    decreases parts.len(),
{
    if parts.len() > 0 {
        lemma_hint_key_ranges_len(parts.drop_last(), sep);
    }
}

/// The characters of each part.
pub open spec fn parts_view(parts: Seq<(&str, &str)>) -> Seq<(Seq<char>, Seq<char>)> {
    parts.map_values(|p: (&str, &str)| (p.0@, p.1@))
}

/// Builds a hint line from `(key, description)` parts joined by `separator`,
/// with the byte range of each key (for coloring).
pub fn build_hint_string(parts: &[(&str, &str)], separator: &str) -> (r: (String, Vec<(usize, usize)>))
    ensures
        r.0@ == hint_text(parts_view(parts@), separator@),
        r.1@.len() == hint_key_ranges(parts_view(parts@), separator@).len(),
        forall|t: int| 0 <= t < r.1@.len() ==> (#[trigger] r.1@[t]).0 as int == hint_key_ranges(parts_view(parts@), separator@)[t].0
            && r.1@[t].1 as int == hint_key_ranges(parts_view(parts@), separator@)[t].1,
{
    let mut result = String::new();
    let mut key_ranges: Vec<(usize, usize)> = Vec::new();
    let ghost pv = parts_view(parts@);
    let mut i: usize = 0;
    while i < parts.len()
        invariant
            i <= parts@.len(),
            pv == parts_view(parts@),
            result@ == hint_text(pv.take(i as int), separator@),
            key_ranges@.len() == i,
            forall|t: int| 0 <= t < i ==> (#[trigger] key_ranges@[t]).0 as int == hint_key_ranges(pv.take(i as int), separator@)[t].0
                && key_ranges@[t].1 as int == hint_key_ranges(pv.take(i as int), separator@)[t].1,
        decreases parts@.len() - i,
    {
        let ghost prev = pv.take(i as int);
        let ghost cur = pv.take(i + 1);
        assert(cur.drop_last() =~= prev);
        let (key, desc) = parts[i];
        if i > 0 {
            result.append(separator);
        }
        assert(result@ == hint_key_start_text(cur, separator@));
        let start = string_byte_len(&result);
        let ghost before_key = result@;
        result.append(key);
        let end = string_byte_len(&result);
        proof {
            lemma_encode_utf8_concat(before_key, key@);
            lemma_hint_key_ranges_len(prev, separator@);
            assert(hint_key_ranges(cur, separator@) == hint_key_ranges(prev, separator@).push((start as int, end as int)));
        }
        key_ranges.push((start, end));
        result.append(desc);
        i += 1;
    }
    assert(pv.take(i as int) =~= pv);
    proof {
        lemma_hint_key_ranges_len(pv, separator@);
    }
    (result, key_ranges)
}


/// The hints for a wide window.
pub open spec fn wide_parts() -> Seq<(Seq<char>, Seq<char>)> {
    seq![
        ("<a>"@, " add pane"@),
        ("<A>"@, " add all"@),
        ("<d>"@, " delete"@),
        ("<j/k>"@, " navigate"@),
        ("<Enter>"@, " focus"@),
        ("<Esc>"@, " close"@),
    ]
}

/// The hints for a window of medium width.
pub open spec fn medium_parts() -> Seq<(Seq<char>, Seq<char>)> {
    seq![
        ("<a>"@, " add"@),
        ("<A>"@, " all"@),
        ("<d>"@, " del"@),
        ("<j/k>"@, " nav"@),
        ("<Enter>"@, " go"@),
        ("<Esc>"@, " quit"@),
    ]
}

/// The hints for a narrow window.
pub open spec fn narrow_parts() -> Seq<(Seq<char>, Seq<char>)> {
    seq![("<a>"@, " add"@), ("<d>"@, " del"@), ("<Enter>"@, " go"@), ("<Esc>"@, ""@)]
}

/// The hint parts and separator for a window `cols` columns wide: full
/// hints above 75 columns, abbreviated above 50, minimal otherwise.
pub open spec fn hints_for(cols: usize) -> (Seq<(Seq<char>, Seq<char>)>, Seq<char>) {
    if cols > 75 {
        (wide_parts(), ", "@)
    } else if cols > 50 {
        (medium_parts(), ", "@)
    } else {
        (narrow_parts(), " "@)
    }
}

/// The hint line as text and key ranges.
pub open spec fn hint_line(parts: Seq<(Seq<char>, Seq<char>)>, sep: Seq<char>, r: (String, Vec<(usize, usize)>)) -> bool {
    &&& r.0@ == hint_text(parts, sep)
    &&& r.1@.len() == hint_key_ranges(parts, sep).len()
    &&& forall|t: int| 0 <= t < r.1@.len() ==> (#[trigger] r.1@[t]).0 as int == hint_key_ranges(parts, sep)[t].0
        && r.1@[t].1 as int == hint_key_ranges(parts, sep)[t].1
}

/// The full key hints.
pub fn build_wide_hints() -> (r: (String, Vec<(usize, usize)>))
    ensures
        hint_line(wide_parts(), ", "@, r),
{
    let parts = [
        ("<a>", " add pane"),
        ("<A>", " add all"),
        ("<d>", " delete"),
        ("<j/k>", " navigate"),
        ("<Enter>", " focus"),
        ("<Esc>", " close"),
    ];
    assert(parts_view(parts@) =~= wide_parts());
    build_hint_string(&parts, ", ")
}

/// The abbreviated key hints.
pub fn build_medium_hints() -> (r: (String, Vec<(usize, usize)>))
    ensures
        hint_line(medium_parts(), ", "@, r),
{
    let parts = [
        ("<a>", " add"),
        ("<A>", " all"),
        ("<d>", " del"),
        ("<j/k>", " nav"),
        ("<Enter>", " go"),
        ("<Esc>", " quit"),
    ];
    assert(parts_view(parts@) =~= medium_parts());
    build_hint_string(&parts, ", ")
}

/// The minimal key hints.
pub fn build_narrow_hints() -> (r: (String, Vec<(usize, usize)>))
    ensures
        hint_line(narrow_parts(), " "@, r),
{
    let parts = [("<a>", " add"), ("<d>", " del"), ("<Enter>", " go"), ("<Esc>", "")];
    assert(parts_view(parts@) =~= narrow_parts());
    build_hint_string(&parts, " ")
}

/// The hint line for a window `cols` columns wide, with the byte ranges of
/// the keys to color.
pub fn build_hint_line(cols: usize) -> (r: (String, Vec<(usize, usize)>))
    ensures
        hint_line(hints_for(cols).0, hints_for(cols).1, r),
{
    if cols > 75 {
        build_wide_hints()
    } else if cols > 50 {
        build_medium_hints()
    } else {
        build_narrow_hints()
    }
}

} // verus!
