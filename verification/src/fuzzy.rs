//! Fuzzy matching: every character of the needle must appear in the haystack,
//! in order, though not necessarily contiguously.
use vstd::prelude::*;
use vstd::utf8::encode_utf8;
use vstd::utf8::encode_scalar;
use vstd::utf8::char_is_scalar;

verus! {

/// What `str::to_lowercase` returns for a string.
pub uninterp spec fn lowercase(s: Seq<char>) -> Seq<char>;

/// Lowercasing of one ASCII character: `A`..`Z` become `a`..`z`, every other
/// character stays.
pub open spec fn ascii_lower(c: char) -> char {
    if 65 <= (c as u32) <= 90 {
        ((c as u32) + 32) as char
    } else {
        c
    }
}

/// Every character is ASCII.
pub open spec fn is_ascii_text(s: Seq<char>) -> bool {
    forall|i: int| 0 <= i < s.len() ==> (#[trigger] s[i] as u32) < 128
}

/// What lowercasing `s` gives: character by character for ASCII text, and
/// otherwise the Unicode lowercase form named by `lowercase`.
pub open spec fn lowered(s: Seq<char>) -> Seq<char> {
    if is_ascii_text(s) {
        s.map_values(|c: char| ascii_lower(c))
    } else {
        lowercase(s)
    }
}

/// Calls `str::to_lowercase`, which maps each character to its Unicode
/// lowercase form (one or more characters each). The result is named by
/// `lowercase` of the input's characters; it is empty exactly when the input
/// is; and on ASCII text it lowers each character as ASCII does (the Unicode
/// lowercase of an ASCII letter is its ASCII lowercase, and other ASCII
/// characters have no other lowercase form). Beyond ASCII, what the result
/// holds is not stated.
#[verifier::external_body]
pub(crate) fn to_lowercase(s: &str) -> (r: String)
    ensures
        r@ == lowercase(s@),
        (s@.len() == 0) == (r@.len() == 0),
        is_ascii_text(s@) ==> r@ == s@.map_values(|c: char| ascii_lower(c)),
{
    s.to_lowercase()
}

/// The characters of a string, in order.
pub fn chars_of(s: &str) -> (v: Vec<char>)
    ensures
        v@ == s@,
{
    let mut v: Vec<char> = Vec::new();
    for c in it: s.chars()
        invariant
            it.seq() == s@,
            v@ == s@.take(it.index() as int),
    {
        v.push(c);
    }
    v
}


/// `f` places `n[k..]` into `h[pos..]`: each character at a position of `h`
/// holding the same character, at strictly increasing positions.
pub open spec fn places(n: Seq<char>, h: Seq<char>, k: int, pos: int, f: spec_fn(int) -> int) -> bool {
    &&& forall|i: int| k <= i < n.len() ==> pos <= #[trigger] f(i) < h.len() && h[f(i)] == n[i]
    &&& forall|i: int, j: int| k <= i < j < n.len() ==> #[trigger] f(i) < #[trigger] f(j)
}

/// Every character of `n` occurs in `h`, in the same order.
pub open spec fn appears_in_order(n: Seq<char>, h: Seq<char>) -> bool {
    exists|f: spec_fn(int) -> int| #[trigger] places(n, h, 0, 0, f)
}

/// Greedy left-to-right scan: each character of `n[k..]` is matched with its
/// first occurrence in `h` after the previous match, starting at `pos`.
pub open spec fn greedy_match(n: Seq<char>, h: Seq<char>, k: int, pos: int) -> bool
    decreases h.len() - pos,
{
    if k >= n.len() {
        true
    } else if pos >= h.len() || pos < 0 {
        false
    } else if n[k] == h[pos] {
        greedy_match(n, h, k + 1, pos + 1)
    } else {
        greedy_match(n, h, k, pos + 1)
    }
}

/// The positions in `h` at which the greedy scan matches characters of
/// `n[k..]`, starting at `pos`; the scan stops when `h` is exhausted.
pub open spec fn greedy_positions(n: Seq<char>, h: Seq<char>, k: int, pos: int) -> Seq<int>
    decreases h.len() - pos,
{
    if k >= n.len() || pos >= h.len() || pos < 0 {
        seq![]
    } else if n[k] == h[pos] {
        seq![pos] + greedy_positions(n, h, k + 1, pos + 1)
    } else {
        greedy_positions(n, h, k, pos + 1)
    }
}

/// The greedy scan succeeds exactly when a placement exists.
pub proof fn lemma_greedy_iff_places(n: Seq<char>, h: Seq<char>, k: int, pos: int)
    requires
        0 <= k <= n.len(),
        0 <= pos <= h.len(),
    ensures
        greedy_match(n, h, k, pos) <==> exists|f: spec_fn(int) -> int| #[trigger] places(n, h, k, pos, f),
    decreases h.len() - pos,
{
    if k == n.len() {
        let f = |i: int| 0int;
        assert(places(n, h, k, pos, f));
    } else if pos == h.len() {
        if exists|f: spec_fn(int) -> int| #[trigger] places(n, h, k, pos, f) {
            let f = choose|f: spec_fn(int) -> int| #[trigger] places(n, h, k, pos, f);
            assert(pos <= f(k) < h.len());
        }
    } else if n[k] == h[pos] {
        lemma_greedy_iff_places(n, h, k + 1, pos + 1);
        if greedy_match(n, h, k, pos) {
            let g = choose|f: spec_fn(int) -> int| #[trigger] places(n, h, k + 1, pos + 1, f);
            let f = |i: int| if i == k { pos } else { g(i) };
            assert forall|i: int, j: int| k <= i < j < n.len() implies #[trigger] f(i) < #[trigger] f(j) by {
                if i > k {
                    assert(g(i) < g(j));
                } else {
                    assert(pos + 1 <= g(j));
                }
            }
            assert(places(n, h, k, pos, f));
        }
        if exists|f: spec_fn(int) -> int| #[trigger] places(n, h, k, pos, f) {
            let f = choose|f: spec_fn(int) -> int| #[trigger] places(n, h, k, pos, f);
            assert forall|i: int| k + 1 <= i < n.len() implies pos + 1 <= #[trigger] f(i) < h.len() && h[f(i)] == n[i] by {
                assert(f(k) < f(i));
                assert(pos <= f(k));
            }
            assert(places(n, h, k + 1, pos + 1, f));
        }
    } else {
        lemma_greedy_iff_places(n, h, k, pos + 1);
        if greedy_match(n, h, k, pos) {
            let g = choose|f: spec_fn(int) -> int| #[trigger] places(n, h, k, pos + 1, f);
            assert(places(n, h, k, pos, g));
        }
        if exists|f: spec_fn(int) -> int| #[trigger] places(n, h, k, pos, f) {
            let f = choose|f: spec_fn(int) -> int| #[trigger] places(n, h, k, pos, f);
            assert(f(k) != pos);
            assert forall|i: int| k <= i < n.len() implies pos + 1 <= #[trigger] f(i) < h.len() && h[f(i)] == n[i] by {
                if i > k {
                    assert(f(k) < f(i));
                }
            }
            assert(places(n, h, k, pos + 1, f));
        }
    }
}

/// The greedy scan matches every remaining needle character exactly when it
/// succeeds.
proof fn lemma_greedy_positions_len(n: Seq<char>, h: Seq<char>, k: int, pos: int)
    requires
        0 <= k <= n.len(),
        0 <= pos <= h.len(),
    ensures
        greedy_positions(n, h, k, pos).len() <= n.len() - k,
        greedy_positions(n, h, k, pos).len() == n.len() - k <==> greedy_match(n, h, k, pos),
    decreases h.len() - pos,
{
    if k < n.len() && pos < h.len() {
        if n[k] == h[pos] {
            lemma_greedy_positions_len(n, h, k + 1, pos + 1);
        } else {
            lemma_greedy_positions_len(n, h, k, pos + 1);
        }
    }
}

/// `r` is the byte range of one character of `h`.
pub open spec fn is_char_range(h: Seq<char>, r: (int, int)) -> bool {
    exists|i: int| 0 <= i < h.len() && r == char_byte_range(h, i)
}

/// Every character of the needle gets a highlighted range exactly when the
/// needle appears in order in the haystack lowered character by character;
/// otherwise fewer ranges are given. Each range is the byte range of one
/// character of the haystack, and the ranges never go backwards.
pub proof fn law_highlights_complete_iff_match(n: Seq<char>, h: Seq<char>)
    ensures
        match_byte_ranges(n, h).len() <= n.len(),
        match_byte_ranges(n, h).len() == n.len() <==> appears_in_order(n, lowered_by_char(h)),
        forall|t: int| 0 <= t < match_byte_ranges(n, h).len() ==> is_char_range(h, #[trigger] match_byte_ranges(n, h)[t]),
        forall|s: int, t: int| 0 <= s < t < match_byte_ranges(n, h).len()
            ==> (#[trigger] match_byte_ranges(n, h)[s]).0 <= (#[trigger] match_byte_ranges(n, h)[t]).0,
{
    let l = lowered_by_char(h);
    let o = lowered_origins(h);
    let g = greedy_positions(n, l, 0, 0);
    lemma_greedy_positions_len(n, l, 0, 0);
    lemma_greedy_iff_places(n, l, 0, 0);
    lemma_lowered_origins(h);
    lemma_origins_ascending(h);
    lemma_greedy_positions_ascending(n, l, 0, 0);
    assert forall|t: int| 0 <= t < match_byte_ranges(n, h).len() implies is_char_range(h, #[trigger] match_byte_ranges(n, h)[t]) by {
        let j = g[t];
        assert(0 <= j < l.len());
        assert(0 <= o[j] < h.len());
        assert(match_byte_ranges(n, h)[t] == char_byte_range(h, o[j]));
    }
    assert forall|s: int, t: int| 0 <= s < t < match_byte_ranges(n, h).len()
        implies (#[trigger] match_byte_ranges(n, h)[s]).0 <= (#[trigger] match_byte_ranges(n, h)[t]).0 by {
        assert(g[s] < g[t]);
        assert(o[g[s]] <= o[g[t]]);
        lemma_byte_offset_monotone(h, o[g[s]], o[g[t]]);
    }
}

/// The greedy positions lie in `h[pos..]` and increase.
proof fn lemma_greedy_positions_ascending(n: Seq<char>, h: Seq<char>, k: int, pos: int)
    requires
        0 <= pos,
    ensures
        forall|t: int| 0 <= t < greedy_positions(n, h, k, pos).len()
            ==> pos <= #[trigger] greedy_positions(n, h, k, pos)[t] < h.len(),
        forall|s: int, t: int| 0 <= s < t < greedy_positions(n, h, k, pos).len()
            ==> #[trigger] greedy_positions(n, h, k, pos)[s] < #[trigger] greedy_positions(n, h, k, pos)[t],
    decreases h.len() - pos,
{
    if k < n.len() && pos < h.len() {
        if n[k] == h[pos] {
            lemma_greedy_positions_ascending(n, h, k + 1, pos + 1);
            let rest = greedy_positions(n, h, k + 1, pos + 1);
            let g = greedy_positions(n, h, k, pos);
            assert(g == seq![pos] + rest);
            assert forall|t: int| 0 <= t < g.len() implies pos <= #[trigger] g[t] < h.len() by {
                if t > 0 {
                    assert(g[t] == rest[t - 1]);
                }
            }
            assert forall|s: int, t: int| 0 <= s < t < g.len() implies #[trigger] g[s] < #[trigger] g[t] by {
                assert(g[t] == rest[t - 1]);
                if s > 0 {
                    assert(g[s] == rest[s - 1]);
                }
            }
        } else {
            lemma_greedy_positions_ascending(n, h, k, pos + 1);
            assert(greedy_positions(n, h, k, pos) == greedy_positions(n, h, k, pos + 1));
        }
    } else {
        assert(greedy_positions(n, h, k, pos).len() == 0);
    }
}

/// Origins do not go backwards.
proof fn lemma_origins_ascending(h: Seq<char>)
    ensures
        forall|s: int, t: int| 0 <= s <= t < lowered_origins(h).len()
            ==> #[trigger] lowered_origins(h)[s] <= #[trigger] lowered_origins(h)[t],
    decreases h.len(),
{
    if h.len() > 0 {
        lemma_origins_ascending(h.drop_last());
        lemma_lowered_origins(h.drop_last());
        let prev = lowered_origins(h.drop_last());
        assert forall|s: int, t: int| 0 <= s <= t < lowered_origins(h).len()
            implies #[trigger] lowered_origins(h)[s] <= #[trigger] lowered_origins(h)[t] by {
            if t >= prev.len() {
                assert(lowered_origins(h)[t] == h.len() - 1);
                if s < prev.len() {
                    assert(lowered_origins(h)[s] == prev[s]);
                }
            } else {
                assert(lowered_origins(h)[s] == prev[s] && lowered_origins(h)[t] == prev[t]);
            }
        }
    }
}

/// Byte offsets grow with the character index.
proof fn lemma_byte_offset_monotone(h: Seq<char>, a: int, b: int)
    requires
        0 <= a <= b <= h.len(),
    ensures
        byte_offset(h, a) <= byte_offset(h, b),
    decreases b - a,
{
    if a < b {
        lemma_byte_offset_monotone(h, a, b - 1);
        lemma_byte_offset_step(h, b - 1);
    }
}

/// Fuzzy match: all characters in `needle` appear in `haystack`, in order.
pub fn fuzzy_match(needle: &str, haystack: &str) -> (r: bool)
    ensures
        r == appears_in_order(needle@, haystack@),
{
    let n = chars_of(needle);
    let h = chars_of(haystack);
    let mut k: usize = 0;
    let mut pos: usize = 0;
    while k < n.len()
        invariant
            n@ == needle@,
            h@ == haystack@,
            k <= n.len(),
            pos <= h.len(),
            greedy_match(n@, h@, 0, 0) == greedy_match(n@, h@, k as int, pos as int),
        decreases n.len() - k,
    {
        let nc = n[k];
        while pos < h.len() && h[pos] != nc
            invariant
                n@ == needle@,
                h@ == haystack@,
                k < n.len(),
                pos <= h.len(),
                nc == n@[k as int],
                greedy_match(n@, h@, 0, 0) == greedy_match(n@, h@, k as int, pos as int),
            decreases h.len() - pos,
        {
            pos += 1;
        }
        if pos == h.len() {
            proof {
                lemma_greedy_iff_places(n@, h@, 0, 0);
            }
            return false;
        }
        pos += 1;
        k += 1;
    }
    proof {
        lemma_greedy_iff_places(n@, h@, 0, 0);
    }
    true
}


/// Number of bytes of the UTF-8 encoding of `c`.
pub open spec fn utf8_width(c: char) -> int {
    encode_scalar(c as u32).len() as int
}

/// Byte offset of character `i` of `h` in its UTF-8 encoding.
pub open spec fn byte_offset(h: Seq<char>, i: int) -> int {
    encode_utf8(h.take(i)).len() as int
}

/// The byte range that character `i` of `h` occupies.
pub open spec fn char_byte_range(h: Seq<char>, i: int) -> (int, int) {
    (byte_offset(h, i), byte_offset(h, i) + utf8_width(h[i]))
}

/// `h` lowered one character at a time: each character replaced by its
/// lowered form, in order.
pub open spec fn lowered_by_char(h: Seq<char>) -> Seq<char>
    decreases h.len(),
{
    if h.len() == 0 {
        seq![]
    } else {
        lowered_by_char(h.drop_last()) + lowered(seq![h.last()])
    }
}

/// For each character of `lowered_by_char(h)`, the index of the character of
/// `h` it comes from.
pub open spec fn lowered_origins(h: Seq<char>) -> Seq<int>
    decreases h.len(),
{
    if h.len() == 0 {
        seq![]
    } else {
        lowered_origins(h.drop_last()) + Seq::new(lowered(seq![h.last()]).len(), |k: int| h.len() - 1)
    }
}

/// Each lowered character has an origin, a character of `h`.
pub proof fn lemma_lowered_origins(h: Seq<char>)
    ensures
        lowered_origins(h).len() == lowered_by_char(h).len(),
        forall|j: int| 0 <= j < lowered_origins(h).len() ==> 0 <= #[trigger] lowered_origins(h)[j] < h.len(),
    decreases h.len(),
{
    if h.len() > 0 {
        lemma_lowered_origins(h.drop_last());
    }
}

/// The byte ranges, in `h` itself, of the characters whose lowered forms the
/// greedy scan matches with the characters of `n`.
pub open spec fn match_byte_ranges(n: Seq<char>, h: Seq<char>) -> Seq<(int, int)> {
    greedy_positions(n, lowered_by_char(h), 0, 0).map_values(|j: int| char_byte_range(h, lowered_origins(h)[j]))
}

/// Encoding a concatenation concatenates the encodings.
pub proof fn lemma_encode_utf8_concat(a: Seq<char>, b: Seq<char>)
    ensures
        encode_utf8(a + b) == encode_utf8(a) + encode_utf8(b),
    decreases a.len(),
{
    if a.len() == 0 {
        assert(a + b =~= b);
    } else {
        lemma_encode_utf8_concat(a.drop_first(), b);
        assert((a + b).drop_first() =~= a.drop_first() + b);
        assert(encode_utf8(a + b) =~= encode_utf8(a) + encode_utf8(b));
    }
}

/// The offset of the next character is the offset of this one plus its width,
/// and it stays within the whole encoding.
proof fn lemma_byte_offset_step(h: Seq<char>, i: int)
    requires
        0 <= i < h.len(),
    ensures
        byte_offset(h, i + 1) == byte_offset(h, i) + utf8_width(h[i]),
        byte_offset(h, i + 1) <= encode_utf8(h).len(),
{
    assert(h.take(i + 1) =~= h.take(i) + seq![h[i]]);
    lemma_encode_utf8_concat(h.take(i), seq![h[i]]);
    let one = seq![h[i]];
    assert(one.drop_first() =~= Seq::<char>::empty());
    assert(encode_utf8(one.drop_first()) =~= Seq::<u8>::empty());
    assert(encode_utf8(one) == encode_scalar(one[0] as u32) + encode_utf8(one.drop_first()));
    assert(encode_utf8(one) =~= encode_scalar(h[i] as u32));
    assert(h =~= h.take(i + 1) + h.skip(i + 1));
    lemma_encode_utf8_concat(h.take(i + 1), h.skip(i + 1));
}

/// Number of bytes of the UTF-8 encoding of `c` (what `char::len_utf8` gives).
pub fn char_utf8_width(c: char) -> (r: usize)
    ensures
        r as int == utf8_width(c),
        1 <= r <= 4,
{
    proof {
        char_is_scalar(c);
    }
    let u = c as u32;
    if u <= 0x7F {
        1
    } else if u <= 0x7FF {
        2
    } else if u <= 0xFFFF {
        3
    } else {
        4
    }
}

/// Lowers `haystack` one character at a time; each resulting character comes
/// with the byte range, in `haystack`, of the character it comes from.
pub fn lower_by_char(haystack: &str) -> (r: (Vec<char>, Vec<(usize, usize)>))
    ensures
        r.0@ == lowered_by_char(haystack@),
        r.1@.len() == r.0@.len(),
        forall|j: int| 0 <= j < r.1@.len() ==>
            (#[trigger] r.1@[j]).0 as int == char_byte_range(haystack@, lowered_origins(haystack@)[j]).0
            && r.1@[j].1 as int == char_byte_range(haystack@, lowered_origins(haystack@)[j]).1,
{
    let h = chars_of(haystack);
    let total = haystack.as_bytes().len();
    let mut out: Vec<char> = Vec::new();
    let mut spans: Vec<(usize, usize)> = Vec::new();
    let mut b: usize = 0;
    let mut i: usize = 0;
    assert(h@.take(0) =~= Seq::<char>::empty());
    while i < h.len()
        invariant
            h@ == haystack@,
            total as int == encode_utf8(h@).len(),
            i <= h.len(),
            b as int == byte_offset(h@, i as int),
            b <= total,
            out@ == lowered_by_char(h@.take(i as int)),
            spans@.len() == out@.len(),
            lowered_origins(h@.take(i as int)).len() == out@.len(),
            forall|j: int| 0 <= j < spans@.len() ==>
                (#[trigger] spans@[j]).0 as int == char_byte_range(h@, lowered_origins(h@.take(i as int))[j]).0
                && spans@[j].1 as int == char_byte_range(h@, lowered_origins(h@.take(i as int))[j]).1,
        decreases h.len() - i,
    {
        let c = h[i];
        let w = char_utf8_width(c);
        proof {
            lemma_byte_offset_step(h@, i as int);
            lemma_lowered_origins(h@.take(i as int));
        }
        let mut one = String::new();
        crate::text::push_char(&mut one, c);
        let low = to_lowercase(one.as_str());
        let lc = chars_of(low.as_str());
        let ghost next = h@.take(i + 1);
        proof {
            assert(one@ =~= seq![c]);
            assert(lc@ == lowered(seq![c]));
            assert(next.drop_last() =~= h@.take(i as int));
            assert(next.last() == c);
            assert(lowered_by_char(next) == lowered_by_char(h@.take(i as int)) + lc@);
            assert(lowered_origins(next) == lowered_origins(h@.take(i as int))
                + Seq::new(lc@.len(), |k: int| next.len() - 1));
        }
        let ghost out0 = out@;
        let ghost spans0 = spans@;
        let mut k: usize = 0;
        while k < lc.len()
            invariant
                k <= lc.len(),
                out@ == out0 + lc@.take(k as int),
                spans@.len() == spans0.len() + k,
                forall|j: int| 0 <= j < spans0.len() ==> #[trigger] spans@[j] == spans0[j],
                forall|j: int| spans0.len() <= j < spans@.len() ==> #[trigger] spans@[j] == (b, (b + w) as usize),
                b + w <= total,
            decreases lc.len() - k,
        {
            out.push(lc[k]);
            spans.push((b, b + w));
            assert(lc@.take(k + 1) =~= lc@.take(k as int).push(lc@[k as int]));
            k += 1;
        }
        proof {
            assert(lc@.take(k as int) =~= lc@);
            let o = lowered_origins(next);
            let o0 = lowered_origins(h@.take(i as int));
            assert forall|j: int| 0 <= j < spans@.len() implies
                (#[trigger] spans@[j]).0 as int == char_byte_range(h@, o[j]).0
                && spans@[j].1 as int == char_byte_range(h@, o[j]).1 by {
                if j < spans0.len() {
                    assert(o[j] == o0[j]);
                } else {
                    assert(o[j] == i);
                }
            }
        }
        b = b + w;
        i += 1;
    }
    assert(h@.take(i as int) =~= h@);
    (out, spans)
}

/// The spans of the characters of `lowered` that a greedy in-order scan
/// matches with the characters of `needle_lower`; once `lowered` is
/// exhausted the remaining needle characters get no span.
pub fn match_ranges(needle_lower: &str, lowered: &Vec<char>, spans: &Vec<(usize, usize)>) -> (r: Vec<(usize, usize)>)
    requires
        spans@.len() == lowered@.len(),
    ensures
        r@.len() == greedy_positions(needle_lower@, lowered@, 0, 0).len(),
        forall|t: int| 0 <= t < r@.len() ==>
            #[trigger] r@[t] == spans@[greedy_positions(needle_lower@, lowered@, 0, 0)[t]],
{
    let n = chars_of(needle_lower);
    let ghost full = greedy_positions(n@, lowered@, 0, 0);
    let ghost mut done: Seq<int> = seq![];
    let mut ranges: Vec<(usize, usize)> = Vec::new();
    let mut k: usize = 0;
    let mut pos: usize = 0;
    while k < n.len()
        invariant
            n@ == needle_lower@,
            spans@.len() == lowered@.len(),
            full == greedy_positions(n@, lowered@, 0, 0),
            k <= n.len(),
            pos <= lowered.len(),
            full == done + greedy_positions(n@, lowered@, k as int, pos as int),
            ranges@.len() == done.len(),
            forall|t: int| 0 <= t < done.len() ==> 0 <= #[trigger] done[t] < lowered@.len()
                && ranges@[t] == spans@[done[t]],
        decreases n.len() - k,
    {
        let nc = n[k];
        while pos < lowered.len() && lowered[pos] != nc
            invariant
                n@ == needle_lower@,
                k < n.len(),
                pos <= lowered.len(),
                nc == n@[k as int],
                full == done + greedy_positions(n@, lowered@, k as int, pos as int),
            decreases lowered.len() - pos,
        {
            pos += 1;
        }
        if pos < lowered.len() {
            proof {
                assert(done.push(pos as int) + greedy_positions(n@, lowered@, k + 1, pos + 1)
                    =~= done + greedy_positions(n@, lowered@, k as int, pos as int));
                done = done.push(pos as int);
            }
            ranges.push(spans[pos]);
            pos += 1;
        }
        k += 1;
    }
    proof {
        assert(full =~= done);
    }
    ranges
}

/// Returns the byte ranges, in `haystack`, of the characters that the
/// lowercased needle matches, for highlighting them: the haystack is lowered
/// one character at a time and scanned greedily in order.
pub fn fuzzy_match_indices(needle: &str, haystack: &str) -> (r: Vec<(usize, usize)>)
    ensures
        r@.len() == match_byte_ranges(lowered(needle@), haystack@).len(),
        forall|t: int| 0 <= t < r@.len() ==>
            (#[trigger] r@[t]).0 as int == match_byte_ranges(lowered(needle@), haystack@)[t].0
            && r@[t].1 as int == match_byte_ranges(lowered(needle@), haystack@)[t].1,
{
    let needle_lower = to_lowercase(needle);
    let (by_char, spans) = lower_by_char(haystack);
    let r = match_ranges(needle_lower.as_str(), &by_char, &spans);
    proof {
        assert(needle_lower@ == lowered(needle@));
        lemma_greedy_positions_ascending(lowered(needle@), by_char@, 0, 0);
    }
    r
}

} // verus!
