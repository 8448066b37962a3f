//! Character-level text utilities shared by the path, flow and explain logic.
//!
//! Every helper works on sequences of `char` and is specified by a spec
//! function over `Seq<char>`.
use vstd::prelude::*;
use vstd::std_specs::iter::IteratorSpec;

verus! {

/// `s` begins with `p`.
pub open spec fn starts_with(s: Seq<char>, p: Seq<char>) -> bool {
    p.len() <= s.len() && s.subrange(0, p.len() as int) == p
}

/// `s` ends with `p`.
pub open spec fn ends_with(s: Seq<char>, p: Seq<char>) -> bool {
    p.len() <= s.len() && s.subrange(s.len() - p.len(), s.len() as int) == p
}

/// `p` occurs in `s` starting at index `i`.
pub open spec fn occurs_at(s: Seq<char>, p: Seq<char>, i: int) -> bool {
    0 <= i && i + p.len() <= s.len() && s.subrange(i, i + p.len()) == p
}

/// `p` occurs somewhere in `s` (the empty pattern occurs in every text).
pub open spec fn contains(s: Seq<char>, p: Seq<char>) -> bool {
    exists|i: int| occurs_at(s, p, i)
}

/// `s` with every `from` replaced by `to`.
pub open spec fn replace_char(s: Seq<char>, from: char, to: char) -> Seq<char> {
    s.map_values(|c: char| if c == from { to } else { c })
}

/// The part of `s` after the last `sep` (all of `s` when `sep` does not occur):
/// the first item of `rsplit(sep)`.
pub open spec fn last_segment(s: Seq<char>, sep: char) -> Seq<char>
    decreases s.len(),
{
    if s.len() == 0 {
        s
    } else if s.last() == sep {
        Seq::empty()
    } else {
        last_segment(s.drop_last(), sep).push(s.last())
    }
}

/// The last segment is no longer than the text.
pub proof fn lemma_last_segment_len(s: Seq<char>, sep: char)
    ensures
        last_segment(s, sep).len() <= s.len(),
    decreases s.len(),
{
    if s.len() > 0 {
        lemma_last_segment_len(s.drop_last(), sep);
    }
}

/// The pieces of `s` between occurrences of `sep`, as `split(sep)` yields them
/// (always at least one piece).
pub open spec fn split_on(s: Seq<char>, sep: char) -> Seq<Seq<char>>
    decreases s.len(),
{
    if s.len() == 0 {
        seq![Seq::<char>::empty()]
    } else {
        let prev = split_on(s.drop_last(), sep);
        if s.last() == sep {
            prev.push(Seq::empty())
        } else {
            prev.update(prev.len() - 1, prev.last().push(s.last()))
        }
    }
}

/// `split` always yields at least one piece.
pub proof fn lemma_split_nonempty(s: Seq<char>, sep: char)
    ensures
        split_on(s, sep).len() >= 1,
    decreases s.len(),
{
    if s.len() > 0 {
        lemma_split_nonempty(s.drop_last(), sep);
    }
}

/// The pieces of `split(sep)` that are not empty.
pub open spec fn nonempty_parts(s: Seq<char>, sep: char) -> Seq<Seq<char>> {
    split_on(s, sep).filter(|p: Seq<char>| p.len() > 0)
}

/// Unicode `White_Space`, the property that `char::is_whitespace` and
/// `str::trim` use.
pub open spec fn is_ws(c: char) -> bool {
    let v = c as u32;
    (0x9 <= v && v <= 0xd) || v == 0x20 || v == 0x85 || v == 0xa0 || v == 0x1680 || (0x2000 <= v
        && v <= 0x200a) || v == 0x2028 || v == 0x2029 || v == 0x202f || v == 0x205f || v == 0x3000
}

/// `s` without trailing whitespace.
pub open spec fn trim_end(s: Seq<char>) -> Seq<char>
    decreases s.len(),
{
    if s.len() > 0 && is_ws(s.last()) {
        trim_end(s.drop_last())
    } else {
        s
    }
}

/// `s` without leading whitespace.
pub open spec fn trim_start(s: Seq<char>) -> Seq<char>
    decreases s.len(),
{
    if s.len() > 0 && is_ws(s[0]) {
        trim_start(s.drop_first())
    } else {
        s
    }
}

/// `s` without leading and trailing whitespace, as `str::trim` gives it.
pub open spec fn trim(s: Seq<char>) -> Seq<char> {
    trim_start(trim_end(s))
}

/// The lowercase form of a text, as `str::to_lowercase` computes it.
pub uninterp spec fn lowercase(s: Seq<char>) -> Seq<char>;

/// The lowercase form of a text as `str::to_lowercase` gives it: the ASCII
/// mapping on ASCII text, the named Unicode mapping otherwise.
#[verifier::opaque]
pub open spec fn lower_text(s: Seq<char>) -> Seq<char> {
    if all_ascii(s) {
        ascii_lower(s)
    } else {
        lowercase(s)
    }
}

/// On ASCII text the lowercase form is the ASCII mapping.
pub proof fn lemma_lower_text_ascii(s: Seq<char>)
    requires
        all_ascii(s),
    ensures
        lower_text(s) == ascii_lower(s),
{
    reveal(lower_text);
}

/// ASCII letters mapped to lowercase, everything else unchanged.
pub open spec fn ascii_lower(s: Seq<char>) -> Seq<char> {
    s.map_values(|c: char| if 'A' <= c && c <= 'Z' { ((c as u32) + 32) as char } else { c })
}

/// Every character is ASCII.
pub open spec fn all_ascii(s: Seq<char>) -> bool {
    forall|i: int| 0 <= i < s.len() ==> (s[i] as u32) < 128
}

/// A path with backslashes turned into slashes, then lowercased.
pub open spec fn normalize(p: Seq<char>) -> Seq<char> {
    lower_text(replace_char(p, '\\', '/'))
}

/// The characters of a string slice.
pub fn chars_of(s: &str) -> (v: Vec<char>)
    ensures
        v@ == s@,
{
    broadcast use vstd::string::group_string_axioms;

    let n = s.unicode_len();
    let mut it = s.chars();
    let mut v: Vec<char> = Vec::new();
    loop
        invariant
            n == s@.len(),
            v@ + it.remaining() == s@,
        ensures
            v@ == s@,
        decreases n - v@.len(),
    {
        match it.next() {
            Some(c) => v.push(c),
            None => break,
        }
    }
    v
}

/// Builds a `String` from characters (`String::from_iter`).
#[verifier::external_body]
pub(crate) fn string_of(v: &[char]) -> (s: String)
    ensures
        s@ == v@,
{
    String::from_iter(v.iter())
}

/// Lowercases a text with `str::to_lowercase`. On ASCII text this is the ASCII
/// lowercase mapping; beyond ASCII the Unicode mapping is named, not spelled out.
#[verifier::external_body]
pub(crate) fn to_lowercase(s: &str) -> (r: String)
    ensures
        r@ == lowercase(s@),
        all_ascii(s@) ==> r@ == ascii_lower(s@),
{
    s.to_lowercase()
}

/// A `String` that holds a literal.
pub fn lit(s: &str) -> (r: String)
    ensures
        r@ == s@,
{
    String::from_str(s)
}

/// Lowercased characters of `s`.
pub fn lower_chars(s: &str) -> (v: Vec<char>)
    ensures
        v@ == lower_text(s@),
        all_ascii(s@) ==> v@ == ascii_lower(s@),
{
    reveal(lower_text);
    let l = to_lowercase(s);
    chars_of(l.as_str())
}

/// Lowercased characters of a character sequence.
pub fn lower_of(s: &[char]) -> (v: Vec<char>)
    ensures
        v@ == lower_text(s@),
        all_ascii(s@) ==> v@ == ascii_lower(s@),
{
    let st = string_of(s);
    lower_chars(st.as_str())
}

/// Whether two character sequences are equal.
pub fn seq_eq(a: &[char], b: &[char]) -> (r: bool)
    ensures
        r == (a@ == b@),
{
    if a.len() != b.len() {
        return false;
    }
    let mut i: usize = 0;
    while i < a.len()
        invariant
            a@.len() == b@.len(),
            i <= a@.len(),
            forall|j: int| 0 <= j < i ==> a@[j] == b@[j],
        decreases a.len() - i,
    {
        if a[i] != b[i] {
            return false;
        }
        i = i + 1;
    }
    assert(a@ =~= b@);
    true
}

/// Whether `s` equals the literal `l`.
pub fn eq_lit(s: &[char], l: &str) -> (r: bool)
    ensures
        r == (s@ == l@),
{
    let lv = chars_of(l);
    seq_eq(s, lv.as_slice())
}

/// Whether `p` occurs in `s` at index `at`.
pub fn occurs_at_exec(s: &[char], p: &[char], at: usize) -> (r: bool)
    ensures
        r == occurs_at(s@, p@, at as int),
{
    if p.len() > s.len() || at > s.len() - p.len() {
        return false;
    }
    let mut j: usize = 0;
    while j < p.len()
        invariant
            at + p@.len() <= s@.len(),
            at + p.len() <= s.len(),
            j <= p@.len(),
            forall|k: int| 0 <= k < j ==> s@[at + k] == p@[k],
        decreases p.len() - j,
    {
        if s[at + j] != p[j] {
            assert(s@.subrange(at as int, at + p@.len())[j as int] != p@[j as int]);
            return false;
        }
        j = j + 1;
    }
    assert(s@.subrange(at as int, at + p@.len()) =~= p@);
    true
}

/// Whether `s` starts with `p`.
pub fn starts_with_seq(s: &[char], p: &[char]) -> (r: bool)
    ensures
        r == starts_with(s@, p@),
{
    occurs_at_exec(s, p, 0)
}

/// Whether `s` ends with `p`.
pub fn ends_with_seq(s: &[char], p: &[char]) -> (r: bool)
    ensures
        r == ends_with(s@, p@),
{
    if p.len() > s.len() {
        return false;
    }
    occurs_at_exec(s, p, s.len() - p.len())
}

/// Whether `p` occurs in `s`.
pub fn contains_seq(s: &[char], p: &[char]) -> (r: bool)
    ensures
        r == contains(s@, p@),
{
    if p.len() > s.len() {
        assert forall|i: int| !occurs_at(s@, p@, i) by {}
        return false;
    }
    let last = s.len() - p.len();
    let mut i: usize = 0;
    loop
        invariant
            last == s@.len() - p@.len(),
            i <= last,
            forall|k: int| 0 <= k < i ==> !occurs_at(s@, p@, k),
        ensures
            forall|k: int| 0 <= k <= last ==> !occurs_at(s@, p@, k),
        decreases last - i,
    {
        if occurs_at_exec(s, p, i) {
            return true;
        }
        if i == last {
            break;
        }
        i = i + 1;
    }
    assert forall|k: int| !occurs_at(s@, p@, k) by {
        if occurs_at(s@, p@, k) {
            assert(k <= last);
        }
    }
    false
}

/// Whether `s` starts with the literal `l`.
pub fn starts_with_lit(s: &[char], l: &str) -> (r: bool)
    ensures
        r == starts_with(s@, l@),
{
    let lv = chars_of(l);
    starts_with_seq(s, lv.as_slice())
}

/// Whether `s` ends with the literal `l`.
pub fn ends_with_lit(s: &[char], l: &str) -> (r: bool)
    ensures
        r == ends_with(s@, l@),
{
    let lv = chars_of(l);
    ends_with_seq(s, lv.as_slice())
}

/// Whether the literal `l` occurs in `s`.
pub fn contains_lit(s: &[char], l: &str) -> (r: bool)
    ensures
        r == contains(s@, l@),
{
    let lv = chars_of(l);
    contains_seq(s, lv.as_slice())
}

/// Whether `c` occurs in `s`.
pub fn has_char(s: &[char], c: char) -> (r: bool)
    ensures
        r == s@.contains(c),
{
    let mut i: usize = 0;
    while i < s.len()
        invariant
            i <= s@.len(),
            forall|k: int| 0 <= k < i ==> s@[k] != c,
        decreases s.len() - i,
    {
        if s[i] == c {
            return true;
        }
        i = i + 1;
    }
    false
}

/// `s` with every `from` replaced by `to`.
pub fn replace_char_exec(s: &[char], from: char, to: char) -> (r: Vec<char>)
    ensures
        r@ == replace_char(s@, from, to),
{
    let mut r: Vec<char> = Vec::new();
    let mut i: usize = 0;
    while i < s.len()
        invariant
            i <= s@.len(),
            r@ == replace_char(s@.subrange(0, i as int), from, to),
        decreases s.len() - i,
    {
        let c = if s[i] == from {
            to
        } else {
            s[i]
        };
        r.push(c);
        assert(replace_char(s@.subrange(0, i + 1), from, to) =~= replace_char(
            s@.subrange(0, i as int),
            from,
            to,
        ).push(c));
        i = i + 1;
    }
    assert(s@.subrange(0, s@.len() as int) =~= s@);
    r
}

/// The normalized form of a path: slashes for backslashes, lowercased.
pub fn normalize_chars(path: &str) -> (r: Vec<char>)
    ensures
        r@ == normalize(path@),
        all_ascii(path@) ==> r@ == ascii_lower(replace_char(path@, '\\', '/')),
{
    let cs = chars_of(path);
    let replaced = replace_char_exec(cs.as_slice(), '\\', '/');
    proof {
        lemma_replace_keeps_ascii(path@, '\\', '/');
    }
    lower_of(replaced.as_slice())
}

/// Replacing one ASCII character by another keeps a text ASCII.
pub proof fn lemma_replace_keeps_ascii(s: Seq<char>, from: char, to: char)
    requires
        (to as u32) < 128,
    ensures
        all_ascii(s) ==> all_ascii(replace_char(s, from, to)),
{
    let r = replace_char(s, from, to);
    if all_ascii(s) {
        assert forall|i: int| 0 <= i < r.len() implies (r[i] as u32) < 128 by {
            assert(r[i] == (if s[i] == from { to } else { s[i] }));
        }
    }
}

/// Normalizing an ASCII path twice changes nothing, and a normalized ASCII
/// path holds no backslash.
pub proof fn law_normalize_ascii(p: Seq<char>)
    requires
        all_ascii(p),
    ensures
        normalize(normalize(p)) == normalize(p),
        !normalize(p).contains('\\'),
{
    reveal(lower_text);
    lemma_replace_keeps_ascii(p, '\\', '/');
    let r = replace_char(p, '\\', '/');
    let n = ascii_lower(r);
    assert(normalize(p) == n);
    assert forall|i: int| 0 <= i < n.len() implies n[i] != '\\' && (n[i] as u32) < 128 && !('A' <= n[i]
        && n[i] <= 'Z') by {
        assert(r[i] == (if p[i] == '\\' { '/' } else { p[i] }));
        assert(n[i] == (if 'A' <= r[i] && r[i] <= 'Z' { ((r[i] as u32) + 32) as char } else { r[i] }));
    }
    assert(all_ascii(n));
    let r2 = replace_char(n, '\\', '/');
    assert(r2 =~= n);
    assert(ascii_lower(r2) =~= n) by {
        assert forall|i: int| 0 <= i < r2.len() implies ascii_lower(r2)[i] == n[i] by {
            assert(r2[i] == n[i]);
        }
    }
    lemma_replace_keeps_ascii(n, '\\', '/');
}

/// The part of `s` after the last `sep`.
pub fn last_segment_exec(s: &[char], sep: char) -> (r: Vec<char>)
    ensures
        r@ == last_segment(s@, sep),
{
    let mut start: usize = s.len();
    assert(s@.subrange(0, s@.len() as int) =~= s@);
    assert(s@.subrange(s@.len() as int, s@.len() as int) =~= Seq::<char>::empty());
    while start > 0 && s[start - 1] != sep
        invariant
            start <= s@.len(),
            last_segment(s@, sep) == last_segment(s@.subrange(0, start as int), sep) + s@.subrange(
                start as int,
                s@.len() as int,
            ),
        decreases start,
    {
        let ghost pre = s@.subrange(0, start as int);
        assert(pre.drop_last() =~= s@.subrange(0, start - 1));
        assert(s@.subrange(start - 1, s@.len() as int) =~= seq![pre.last()] + s@.subrange(
            start as int,
            s@.len() as int,
        ));
        assert(last_segment(pre, sep) == last_segment(pre.drop_last(), sep).push(pre.last()));
        assert(last_segment(pre.drop_last(), sep).push(pre.last()) + s@.subrange(
            start as int,
            s@.len() as int,
        ) =~= last_segment(pre.drop_last(), sep) + s@.subrange(start - 1, s@.len() as int));
        start = start - 1;
    }
    let mut r: Vec<char> = Vec::new();
    let mut i: usize = start;
    while i < s.len()
        invariant
            start <= i <= s@.len(),
            r@ == s@.subrange(start as int, i as int),
        decreases s.len() - i,
    {
        r.push(s[i]);
        assert(s@.subrange(start as int, i + 1) =~= s@.subrange(start as int, i as int).push(
            s@[i as int],
        ));
        i = i + 1;
    }
    assert(last_segment(s@.subrange(0, start as int), sep) =~= Seq::<char>::empty());
    assert(r@ =~= last_segment(s@, sep));
    r
}

/// The deep view of a vector of characters is its view.
pub proof fn lemma_chars_deep_view(v: &Vec<char>)
    ensures
        v.deep_view() == v@,
{
    assert(v.deep_view() =~= v@);
}

/// The pieces of `s` between occurrences of `sep`.
pub fn split_exec(s: &[char], sep: char) -> (r: Vec<Vec<char>>)
    ensures
        r.deep_view() == split_on(s@, sep),
{
    let mut done: Vec<Vec<char>> = Vec::new();
    let mut cur: Vec<char> = Vec::new();
    let mut i: usize = 0;
    while i < s.len()
        invariant
            i <= s@.len(),
            split_on(s@.subrange(0, i as int), sep) == done.deep_view().push(cur@),
        decreases s.len() - i,
    {
        let ghost pre = s@.subrange(0, i as int);
        assert(s@.subrange(0, i + 1).drop_last() =~= pre);
        if s[i] == sep {
            let ghost old_done = done.deep_view();
            proof { lemma_chars_deep_view(&cur); }
            done.push(cur);
            assert(done.deep_view() =~= old_done.push(cur@));
            cur = Vec::new();
            assert(split_on(s@.subrange(0, i + 1), sep) =~= done.deep_view().push(cur@));
        } else {
            let ghost old_cur = cur@;
            cur.push(s[i]);
            assert(split_on(s@.subrange(0, i + 1), sep) =~= done.deep_view().push(cur@)) by {
                assert(split_on(pre, sep) == done.deep_view().push(old_cur));
            }
        }
        i = i + 1;
    }
    assert(s@.subrange(0, s@.len() as int) =~= s@);
    let ghost old_done = done.deep_view();
    proof { lemma_chars_deep_view(&cur); }
    done.push(cur);
    assert(done.deep_view() =~= old_done.push(cur@));
    done
}

/// The pieces of `s` between occurrences of `sep` that are not empty.
pub fn nonempty_parts_exec(s: &[char], sep: char) -> (r: Vec<Vec<char>>)
    ensures
        r.deep_view() == nonempty_parts(s@, sep),
{
    let pieces = split_exec(s, sep);
    let ghost pred = |p: Seq<char>| p.len() > 0;
    let mut r: Vec<Vec<char>> = Vec::new();
    let mut i: usize = 0;
    while i < pieces.len()
        invariant
            i <= pieces@.len(),
            pred == (|p: Seq<char>| p.len() > 0),
            pieces.deep_view() == split_on(s@, sep),
            r.deep_view() == pieces.deep_view().subrange(0, i as int).filter(pred),
        decreases pieces.len() - i,
    {
        proof {
            reveal_with_fuel(Seq::<_>::filter, 1);
            assert(pieces.deep_view().subrange(0, i + 1).drop_last() =~= pieces.deep_view().subrange(
                0,
                i as int,
            ));
        }
        if pieces[i].len() > 0 {
            let ghost old_r = r.deep_view();
            r.push(pieces[i].clone());
            assert(r.deep_view() =~= old_r.push(pieces.deep_view()[i as int]));
        }
        i = i + 1;
    }
    assert(pieces.deep_view().subrange(0, pieces@.len() as int) =~= pieces.deep_view());
    r
}

/// The pieces of `parts` joined with `sep` between them.
pub open spec fn join(parts: Seq<Seq<char>>, sep: Seq<char>) -> Seq<char>
    decreases parts.len(),
{
    if parts.len() == 0 {
        Seq::empty()
    } else if parts.len() == 1 {
        parts[0]
    } else {
        join(parts.drop_last(), sep) + sep + parts.last()
    }
}

/// Joins texts with `sep` between them.
pub fn join_exec(parts: &Vec<Vec<char>>, sep: &str) -> (r: Vec<char>)
    ensures
        r@ == join(parts.deep_view(), sep@),
{
    let sv = chars_of(sep);
    let mut r: Vec<char> = Vec::new();
    let mut i: usize = 0;
    while i < parts.len()
        invariant
            i <= parts@.len(),
            sv@ == sep@,
            r@ == join(parts.deep_view().subrange(0, i as int), sep@),
        decreases parts.len() - i,
    {
        let ghost pre = parts.deep_view().subrange(0, i + 1);
        assert(pre.drop_last() =~= parts.deep_view().subrange(0, i as int));
        if i > 0 {
            append_chars(&mut r, sv.as_slice());
        }
        append_chars(&mut r, parts[i].as_slice());
        proof {
            if i == 0 {
                assert(r@ =~= pre[0]);
            } else {
                assert(r@ =~= join(pre.drop_last(), sep@) + sep@ + pre.last());
            }
        }
        i = i + 1;
    }
    assert(parts.deep_view().subrange(0, parts@.len() as int) =~= parts.deep_view());
    r
}

/// Appends `extra` to `v`.
pub fn append_chars(v: &mut Vec<char>, extra: &[char])
    ensures
        final(v)@ == old(v)@ + extra@,
{
    let mut i: usize = 0;
    while i < extra.len()
        invariant
            i <= extra@.len(),
            v@ == old(v)@ + extra@.subrange(0, i as int),
        decreases extra.len() - i,
    {
        v.push(extra[i]);
        assert(old(v)@ + extra@.subrange(0, i + 1) =~= (old(v)@ + extra@.subrange(0, i as int)).push(
            extra@[i as int],
        ));
        i = i + 1;
    }
    assert(extra@.subrange(0, extra@.len() as int) =~= extra@);
}

/// The decimal digit character of `d` (0 to 9).
pub open spec fn digit_char(d: nat) -> char {
    ((d + 48) as u32) as char
}

/// The decimal representation of a number, as `Display` prints it.
pub open spec fn decimal(n: nat) -> Seq<char>
    decreases n,
{
    if n < 10 {
        seq![digit_char(n)]
    } else {
        decimal(n / 10).push(digit_char(n % 10))
    }
}

fn digit_exec(d: usize) -> (c: char)
    requires
        d < 10,
    ensures
        c == digit_char(d as nat),
{
    if d == 0 {
        '0'
    } else if d == 1 {
        '1'
    } else if d == 2 {
        '2'
    } else if d == 3 {
        '3'
    } else if d == 4 {
        '4'
    } else if d == 5 {
        '5'
    } else if d == 6 {
        '6'
    } else if d == 7 {
        '7'
    } else if d == 8 {
        '8'
    } else {
        '9'
    }
}

/// The decimal representation of a number.
pub fn decimal_exec(n: usize) -> (r: Vec<char>)
    ensures
        r@ == decimal(n as nat),
    decreases n,
{
    if n < 10 {
        let mut r: Vec<char> = Vec::new();
        r.push(digit_exec(n));
        assert(r@ =~= decimal(n as nat));
        r
    } else {
        let mut r = decimal_exec(n / 10);
        r.push(digit_exec(n % 10));
        r
    }
}

/// Appends the characters of `s` to `v`.
pub fn push_str(v: &mut Vec<char>, s: &str)
    ensures
        final(v)@ == old(v)@ + s@,
{
    let cs = chars_of(s);
    append_chars(v, cs.as_slice());
}

/// The number of bytes of a character in UTF-8.
pub open spec fn utf8_width(c: char) -> nat {
    if (c as u32) < 0x80 {
        1
    } else if (c as u32) < 0x800 {
        2
    } else if (c as u32) < 0x10000 {
        3
    } else {
        4
    }
}

/// The number of bytes of a text in UTF-8 (`str::len`).
pub open spec fn utf8_len(s: Seq<char>) -> nat
    decreases s.len(),
{
    if s.len() == 0 {
        0
    } else {
        utf8_len(s.drop_last()) + utf8_width(s.last())
    }
}

/// Whether a text takes more than `limit` bytes in UTF-8.
pub fn utf8_len_exceeds(s: &str, limit: usize) -> (r: bool)
    ensures
        r == (utf8_len(s@) > limit),
{
    let cs = chars_of(s);
    let mut total: u128 = 0;
    let mut i: usize = 0;
    while i < cs.len()
        invariant
            i <= cs@.len(),
            cs@ == s@,
            total == utf8_len(cs@.take(i as int)),
            total <= 4 * i,
        decreases cs.len() - i,
    {
        assert(cs@.take(i + 1).drop_last() =~= cs@.take(i as int));
        let c = cs[i];
        let w: u128 = if (c as u32) < 0x80 {
            1
        } else if (c as u32) < 0x800 {
            2
        } else if (c as u32) < 0x10000 {
            3
        } else {
            4
        };
        total = total + w;
        i = i + 1;
    }
    assert(cs@.take(cs@.len() as int) =~= cs@);
    total > limit as u128
}

/// The decimal representation of a wide number.
pub fn decimal_wide(n: u128) -> (r: Vec<char>)
    ensures
        r@ == decimal(n as nat),
    decreases n,
{
    if n < 10 {
        let mut r: Vec<char> = Vec::new();
        let d = n as usize;
        r.push(digit_exec(d));
        assert(r@ =~= decimal(n as nat));
        r
    } else {
        let mut r = decimal_wide(n / 10);
        let d = (n % 10) as usize;
        r.push(digit_exec(d));
        r
    }
}

/// Whether `c` has the Unicode `White_Space` property.
pub fn is_ws_exec(c: char) -> (r: bool)
    ensures
        r == is_ws(c),
{
    let v = c as u32;
    (0x9 <= v && v <= 0xd) || v == 0x20 || v == 0x85 || v == 0xa0 || v == 0x1680 || (0x2000 <= v
        && v <= 0x200a) || v == 0x2028 || v == 0x2029 || v == 0x202f || v == 0x205f || v == 0x3000
}

proof fn lemma_trim_end_prefix(s: Seq<char>, k: int)
    requires
        0 <= k <= s.len(),
        forall|j: int| k <= j < s.len() ==> is_ws(s[j]),
    ensures
        trim_end(s) == trim_end(s.subrange(0, k)),
    decreases s.len() - k,
{
    if k < s.len() {
        assert(s.drop_last() =~= s.subrange(0, s.len() - 1));
        assert(s.subrange(0, s.len() - 1).subrange(0, k) =~= s.subrange(0, k));
        lemma_trim_end_prefix(s.drop_last(), k);
    } else {
        assert(s.subrange(0, k) =~= s);
    }
}

proof fn lemma_trim_start_suffix(s: Seq<char>, k: int)
    requires
        0 <= k <= s.len(),
        forall|j: int| 0 <= j < k ==> is_ws(s[j]),
    ensures
        trim_start(s) == trim_start(s.subrange(k, s.len() as int)),
    decreases k,
{
    if k > 0 {
        assert(s.drop_first().subrange(k - 1, s.drop_first().len() as int) =~= s.subrange(
            k,
            s.len() as int,
        ));
        lemma_trim_start_suffix(s.drop_first(), k - 1);
    } else {
        assert(s.subrange(0, s.len() as int) =~= s);
    }
}

/// `s` without leading and trailing whitespace.
pub fn trim_exec(s: &[char]) -> (r: Vec<char>)
    ensures
        r@ == trim(s@),
{
    let mut end: usize = s.len();
    while end > 0 && is_ws_exec(s[end - 1])
        invariant
            end <= s@.len(),
            forall|j: int| end <= j < s@.len() ==> is_ws(s@[j]),
        decreases end,
    {
        end = end - 1;
    }
    proof {
        lemma_trim_end_prefix(s@, end as int);
        if end > 0 {
            assert(s@.subrange(0, end as int).last() == s@[end - 1]);
        }
    }
    let ghost te = s@.subrange(0, end as int);
    assert(trim_end(s@) == te);
    let mut start: usize = 0;
    while start < end && is_ws_exec(s[start])
        invariant
            start <= end <= s@.len(),
            te == s@.subrange(0, end as int),
            forall|j: int| 0 <= j < start ==> is_ws(te[j]),
        decreases end - start,
    {
        start = start + 1;
    }
    proof {
        lemma_trim_start_suffix(te, start as int);
        if start < end {
            assert(te.subrange(start as int, te.len() as int)[0] == s@[start as int]);
        }
    }
    let mut r: Vec<char> = Vec::new();
    let mut i: usize = start;
    while i < end
        invariant
            start <= i <= end <= s@.len(),
            r@ == s@.subrange(start as int, i as int),
        decreases end - i,
    {
        r.push(s[i]);
        assert(s@.subrange(start as int, i + 1) =~= s@.subrange(start as int, i as int).push(
            s@[i as int],
        ));
        i = i + 1;
    }
    assert(te.subrange(start as int, te.len() as int) =~= r@);
    r
}

/// `a` sorts before `b` in code-point order (the order of `str` comparison).
pub open spec fn seq_less(a: Seq<char>, b: Seq<char>) -> bool
    decreases a.len(),
{
    if a.len() == 0 {
        b.len() > 0
    } else if b.len() == 0 {
        false
    } else if a[0] != b[0] {
        (a[0] as int) < (b[0] as int)
    } else {
        seq_less(a.drop_first(), b.drop_first())
    }
}

/// The code-point order is irreflexive.
pub proof fn lemma_seq_less_irreflexive(a: Seq<char>)
    ensures
        !seq_less(a, a),
    decreases a.len(),
{
    if a.len() > 0 {
        lemma_seq_less_irreflexive(a.drop_first());
    }
}

/// The code-point order is asymmetric and total on distinct sequences.
pub proof fn lemma_seq_less_total(a: Seq<char>, b: Seq<char>)
    ensures
        seq_less(a, b) ==> !seq_less(b, a),
        a != b ==> seq_less(a, b) || seq_less(b, a),
    decreases a.len(),
{
    if a.len() > 0 && b.len() > 0 {
        lemma_seq_less_total(a.drop_first(), b.drop_first());
        if a[0] != b[0] {
            assert((a[0] as int) != (b[0] as int));
        }
        if a[0] == b[0] && a.drop_first() == b.drop_first() {
            assert(a =~= seq![a[0]] + a.drop_first());
            assert(b =~= seq![b[0]] + b.drop_first());
        }
    } else if a.len() == 0 && b.len() == 0 {
        assert(a =~= b);
    }
}

/// The code-point order is transitive.
pub proof fn lemma_seq_less_transitive(a: Seq<char>, b: Seq<char>, c: Seq<char>)
    requires
        seq_less(a, b),
        seq_less(b, c),
    ensures
        seq_less(a, c),
    decreases a.len(),
{
    if a.len() > 0 && b.len() > 0 && c.len() > 0 && a[0] == b[0] && b[0] == c[0] {
        lemma_seq_less_transitive(a.drop_first(), b.drop_first(), c.drop_first());
    }
}

/// Order by an integer key, then by text: `(k1, p1)` comes before `(k2, p2)`.
pub open spec fn key_text_before(k1: int, p1: Seq<char>, k2: int, p2: Seq<char>) -> bool {
    k1 < k2 || (k1 == k2 && seq_less(p1, p2))
}

/// The key-then-text order is asymmetric, and an element that comes before
/// `a` comes before everything that `a` does not come after.
pub proof fn lemma_key_text_order(
    kx: int,
    px: Seq<char>,
    ka: int,
    pa: Seq<char>,
    kb: int,
    pb: Seq<char>,
)
    ensures
        key_text_before(kx, px, ka, pa) ==> !key_text_before(ka, pa, kx, px),
        !key_text_before(kx, px, kx, px),
        key_text_before(kx, px, ka, pa) && !key_text_before(kb, pb, ka, pa) ==> key_text_before(
            kx,
            px,
            kb,
            pb,
        ),
        key_text_before(kx, px, ka, pa) && key_text_before(ka, pa, kb, pb) ==> key_text_before(
            kx,
            px,
            kb,
            pb,
        ),
        !key_text_before(kx, px, ka, pa) && !key_text_before(ka, pa, kx, px) ==> kx == ka && px
            == pa,
{
    lemma_seq_less_irreflexive(px);
    lemma_seq_less_total(px, pa);
    lemma_seq_less_total(pb, pa);
    if key_text_before(kx, px, ka, pa) && !key_text_before(kb, pb, ka, pa) && kx == ka && kb
        == ka && pb != pa {
        lemma_seq_less_transitive(px, pa, pb);
    }
    if key_text_before(kx, px, ka, pa) && key_text_before(ka, pa, kb, pb) && kx == ka && ka == kb {
        lemma_seq_less_transitive(px, pa, pb);
    }
}

/// Whether `a` sorts before `b` in code-point order.
pub fn seq_less_exec(a: &[char], b: &[char]) -> (r: bool)
    ensures
        r == seq_less(a@, b@),
{
    let mut i: usize = 0;
    assert(a@.skip(0) =~= a@);
    assert(b@.skip(0) =~= b@);
    while i < a.len() && i < b.len()
        invariant
            i <= a@.len(),
            i <= b@.len(),
            forall|j: int| 0 <= j < i ==> a@[j] == b@[j],
            seq_less(a@, b@) == seq_less(a@.skip(i as int), b@.skip(i as int)),
        decreases a.len() - i,
    {
        if a[i] != b[i] {
            return a[i] < b[i];
        }
        proof {
            assert(a@.skip(i as int).drop_first() =~= a@.skip(i + 1));
            assert(b@.skip(i as int).drop_first() =~= b@.skip(i + 1));
        }
        i = i + 1;
    }
    i == a.len() && i < b.len()
}

} // verus!
