//! Character-sequence helpers shared by the log parser and the row renderer.
//!
//! Every function here works on the characters of a string (`Seq<char>` in the contracts),
//! except the ordering test, which compares the UTF-8 bytes the way `str`'s `Ord` does.

use vstd::prelude::*;

verus! {

// ---------------------------------------------------------------------------------------
// Specifications
// ---------------------------------------------------------------------------------------

/// `s` split at every occurrence of `d` (what `str::split` with a `char` pattern yields).
/// There is always at least one piece; `d` itself occurs in none of them.
pub open spec fn split_spec(s: Seq<char>, d: char) -> Seq<Seq<char>>
    decreases s.len(),
{
    if s.len() == 0 {
        seq![Seq::<char>::empty()]
    } else {
        let rest = split_spec(s.drop_first(), d);
        if s[0] == d {
            seq![Seq::<char>::empty()] + rest
        } else {
            rest.update(0, seq![s[0]] + rest[0])
        }
    }
}

/// `s` cut at the first occurrence of `d` (what `str::split_once` with a `char` yields).
pub open spec fn split_once_spec(s: Seq<char>, d: char) -> Option<(Seq<char>, Seq<char>)>
    decreases s.len(),
{
    if s.len() == 0 {
        None
    } else if s[0] == d {
        Some((Seq::<char>::empty(), s.drop_first()))
    } else {
        match split_once_spec(s.drop_first(), d) {
            Some(kv) => Some((seq![s[0]] + kv.0, kv.1)),
            None => None,
        }
    }
}

/// Index of the first occurrence of the non-empty pattern `p` in `s`, or -1
/// (what `str::find` with a `&str` pattern returns, counted in characters).
pub open spec fn find_spec(s: Seq<char>, p: Seq<char>) -> int
    decreases s.len(),
{
    if p.is_prefix_of(s) {
        0
    } else if s.len() == 0 {
        -1
    } else {
        let r = find_spec(s.drop_first(), p);
        if r < 0 {
            -1
        } else {
            r + 1
        }
    }
}

/// The decoding of jq's `@tsv` escapes: `\n`, `\t`, `\r` and `\\` become the character
/// they stand for; any other backslash, including a trailing one, is kept verbatim.
pub open spec fn unescape_spec(s: Seq<char>) -> Seq<char>
    decreases s.len(),
{
    if s.len() == 0 {
        Seq::<char>::empty()
    } else if s[0] != '\\' {
        seq![s[0]] + unescape_spec(s.drop_first())
    } else if s.len() == 1 {
        seq!['\\']
    } else {
        let rest = unescape_spec(s.skip(2));
        let o = s[1];
        if o == 'n' {
            seq!['\n'] + rest
        } else if o == 't' {
            seq!['\t'] + rest
        } else if o == 'r' {
            seq!['\r'] + rest
        } else if o == '\\' {
            seq!['\\'] + rest
        } else {
            seq!['\\', o] + rest
        }
    }
}

/// How jq's `@tsv` writes one character of a value.
pub open spec fn tsv_escape_char(c: char) -> Seq<char> {
    if c == '\\' {
        seq!['\\', '\\']
    } else if c == '\n' {
        seq!['\\', 'n']
    } else if c == '\t' {
        seq!['\\', 't']
    } else if c == '\r' {
        seq!['\\', 'r']
    } else {
        seq![c]
    }
}

/// How jq's `@tsv` writes a whole value.
pub open spec fn tsv_escape(s: Seq<char>) -> Seq<char>
    decreases s.len(),
{
    if s.len() == 0 {
        Seq::<char>::empty()
    } else {
        tsv_escape_char(s[0]) + tsv_escape(s.drop_first())
    }
}

/// Strict lexicographic order on byte strings (the order of `str`'s `Ord`, applied to the
/// UTF-8 encodings).
pub open spec fn bytes_lt(a: Seq<u8>, b: Seq<u8>) -> bool
    decreases a.len(),
{
    if a.len() == 0 {
        b.len() > 0
    } else if b.len() == 0 {
        false
    } else if a[0] != b[0] {
        a[0] < b[0]
    } else {
        bytes_lt(a.drop_first(), b.drop_first())
    }
}

/// `s` with every `from` replaced by the characters of `to`.
pub open spec fn replace_char_spec(s: Seq<char>, from: char, to: Seq<char>) -> Seq<char>
    decreases s.len(),
{
    if s.len() == 0 {
        Seq::<char>::empty()
    } else {
        (if s[0] == from {
            to
        } else {
            seq![s[0]]
        }) + replace_char_spec(s.drop_first(), from, to)
    }
}

// ---------------------------------------------------------------------------------------
// Lemmas about the specifications
// ---------------------------------------------------------------------------------------

/// `split_spec` always yields at least one piece.
pub proof fn lemma_split_nonempty(s: Seq<char>, d: char)
    ensures
        split_spec(s, d).len() >= 1,
    decreases s.len(),
{
    if s.len() > 0 {
        lemma_split_nonempty(s.drop_first(), d);
    }
}

/// Without `d` in it, `s` splits into itself alone.
pub proof fn lemma_split_without_delimiter(s: Seq<char>, d: char)
    requires
        !s.contains(d),
    ensures
        split_spec(s, d) == seq![s],
    decreases s.len(),
{
    if s.len() == 0 {
        assert(s =~= Seq::<char>::empty());
    } else {
        assert(!s.drop_first().contains(d)) by {
            if s.drop_first().contains(d) {
                let j = choose|j: int| 0 <= j < s.drop_first().len() && s.drop_first()[j] == d;
                assert(s[j + 1] == d);
            }
        }
        assert(s[0] != d) by {
            assert(s[0] == s[0]);
        }
        lemma_split_without_delimiter(s.drop_first(), d);
        assert(seq![s[0]] + s.drop_first() =~= s);
        assert(split_spec(s, d) =~= seq![s]);
    }
}

/// Splitting at one particular occurrence of `d`: the pieces of what comes before it,
/// then the pieces of what comes after.
pub proof fn lemma_split_concat(x: Seq<char>, d: char, y: Seq<char>)
    ensures
        split_spec(x + seq![d] + y, d) == split_spec(x, d) + split_spec(y, d),
    decreases x.len(),
{
    let s = x + seq![d] + y;
    if x.len() == 0 {
        assert(x =~= Seq::<char>::empty());
        assert(s.drop_first() =~= y);
        assert(s[0] == d);
    } else {
        assert(s.drop_first() =~= x.drop_first() + seq![d] + y);
        assert(s[0] == x[0]);
        lemma_split_concat(x.drop_first(), d, y);
        lemma_split_nonempty(x.drop_first(), d);
        lemma_split_nonempty(y, d);
        let a = split_spec(x.drop_first(), d);
        let b = split_spec(y, d);
        if x[0] == d {
            assert(seq![Seq::<char>::empty()] + (a + b) =~= (seq![Seq::<char>::empty()] + a) + b);
        } else {
            assert((a + b).update(0, seq![x[0]] + (a + b)[0]) =~= a.update(
                0,
                seq![x[0]] + a[0],
            ) + b);
        }
    }
}

/// No piece of a split holds a character that `s` does not hold.
pub proof fn lemma_split_pieces_within(s: Seq<char>, d: char, c: char)
    requires
        !s.contains(c),
    ensures
        forall|k: int| 0 <= k < split_spec(s, d).len() ==> !(#[trigger] split_spec(s, d)[k]).contains(c),
    decreases s.len(),
{
    if s.len() > 0 {
        assert(!s.drop_first().contains(c)) by {
            if s.drop_first().contains(c) {
                let j = choose|j: int| 0 <= j < s.drop_first().len() && s.drop_first()[j] == c;
                assert(s[j + 1] == c);
            }
        }
        lemma_split_pieces_within(s.drop_first(), d, c);
        lemma_split_nonempty(s.drop_first(), d);
        let r = split_spec(s.drop_first(), d);
        assert(s[0] != c) by {
            assert(s.contains(s[0]));
        }
        if s[0] == d {
            assert forall|k: int| 0 <= k < split_spec(s, d).len() implies !(
            #[trigger] split_spec(s, d)[k]).contains(c) by {
                if k > 0 {
                    assert(split_spec(s, d)[k] == r[k - 1]);
                }
            }
        } else {
            assert forall|k: int| 0 <= k < split_spec(s, d).len() implies !(
            #[trigger] split_spec(s, d)[k]).contains(c) by {
                if k == 0 {
                    let p = seq![s[0]] + r[0];
                    assert(split_spec(s, d)[0] == p);
                    if p.contains(c) {
                        let j = choose|j: int| 0 <= j < p.len() && p[j] == c;
                        if j > 0 {
                            assert(r[0][j - 1] == c);
                            assert(r[0].contains(c));
                        }
                    }
                } else {
                    assert(split_spec(s, d)[k] == r[k]);
                }
            }
        }
    }
}

/// The parts `split_once_spec` yields are a prefix and a suffix of `s`.
pub proof fn lemma_split_once_parts(s: Seq<char>, d: char)
    ensures
        split_once_spec(s, d) matches Some(kv) ==> exists|i: int|
            0 <= i < s.len() && kv.0 == s.take(i) && kv.1 == s.skip(i + 1),
    decreases s.len(),
{
    if s.len() > 0 {
        if s[0] == d {
            assert(s.take(0) =~= Seq::<char>::empty());
            assert(s.skip(1) =~= s.drop_first());
        } else {
            lemma_split_once_parts(s.drop_first(), d);
            if let Some(kv) = split_once_spec(s.drop_first(), d) {
                let i = choose|i: int|
                    0 <= i < s.drop_first().len() && kv.0 == s.drop_first().take(i) && kv.1
                        == s.drop_first().skip(i + 1);
                assert(seq![s[0]] + kv.0 =~= s.take(i + 1));
                assert(kv.1 =~= s.skip(i + 2));
            }
        }
    }
}

/// `split_once_spec` cuts at the first `d`.
pub proof fn lemma_split_once_at(s: Seq<char>, d: char, i: int)
    requires
        0 <= i < s.len(),
        s[i] == d,
        forall|j: int| 0 <= j < i ==> s[j] != d,
    ensures
        split_once_spec(s, d) == Some((s.take(i), s.skip(i + 1))),
    decreases i,
{
    if i > 0 {
        lemma_split_once_at(s.drop_first(), d, i - 1);
        assert(seq![s[0]] + s.drop_first().take(i - 1) =~= s.take(i));
        assert(s.drop_first().skip(i) =~= s.skip(i + 1));
    } else {
        assert(s.take(0) =~= Seq::<char>::empty());
        assert(s.skip(1) =~= s.drop_first());
    }
}

/// Without `d`, `split_once_spec` finds nothing.
pub proof fn lemma_split_once_none(s: Seq<char>, d: char)
    requires
        forall|j: int| 0 <= j < s.len() ==> s[j] != d,
    ensures
        split_once_spec(s, d) is None,
    decreases s.len(),
{
    if s.len() > 0 {
        assert(s[0] != d);
        lemma_split_once_none(s.drop_first(), d);
    }
}

/// `find_spec` returns the first match.
pub proof fn lemma_find_at(s: Seq<char>, p: Seq<char>, i: int)
    requires
        0 <= i <= s.len(),
        p.is_prefix_of(s.skip(i)),
        forall|j: int| 0 <= j < i ==> !p.is_prefix_of(#[trigger] s.skip(j)),
    ensures
        find_spec(s, p) == i,
    decreases i,
{
    if i == 0 {
        assert(s.skip(0) =~= s);
    } else {
        assert(s.skip(0) =~= s);
        assert(!p.is_prefix_of(s.skip(0)));
        assert forall|j: int| 0 <= j < i - 1 implies !p.is_prefix_of(#[trigger] s.drop_first().skip(j)) by {
            assert(s.drop_first().skip(j) =~= s.skip(j + 1));
            assert(!p.is_prefix_of(s.skip(j + 1)));
        }
        assert(s.drop_first().skip(i - 1) =~= s.skip(i));
        lemma_find_at(s.drop_first(), p, i - 1);
    }
}

/// `find_spec` returns -1 when `p` occurs nowhere.
pub proof fn lemma_find_none(s: Seq<char>, p: Seq<char>)
    requires
        forall|j: int| 0 <= j <= s.len() ==> !p.is_prefix_of(#[trigger] s.skip(j)),
    ensures
        find_spec(s, p) == -1,
    decreases s.len(),
{
    assert(s.skip(0) =~= s);
    assert(!p.is_prefix_of(s.skip(0)));
    if s.len() > 0 {
        assert forall|j: int| 0 <= j <= s.drop_first().len() implies !p.is_prefix_of(
            #[trigger] s.drop_first().skip(j),
        ) by {
            assert(s.drop_first().skip(j) =~= s.skip(j + 1));
            assert(!p.is_prefix_of(s.skip(j + 1)));
        }
        lemma_find_none(s.drop_first(), p);
    }
}

/// `find_spec` is either -1 or the position of a match.
pub proof fn lemma_find_bounds(s: Seq<char>, p: Seq<char>)
    ensures
        -1 <= find_spec(s, p) <= s.len(),
        find_spec(s, p) >= 0 ==> p.is_prefix_of(s.skip(find_spec(s, p))),
    decreases s.len(),
{
    if p.is_prefix_of(s) {
        assert(s.skip(0) =~= s);
    } else if s.len() > 0 {
        lemma_find_bounds(s.drop_first(), p);
        let r = find_spec(s.drop_first(), p);
        if r >= 0 {
            assert(s.drop_first().skip(r) =~= s.skip(r + 1));
        }
    }
}

/// A value without backslashes decodes to itself.
pub proof fn lemma_unescape_plain(s: Seq<char>)
    requires
        !s.contains('\\'),
    ensures
        unescape_spec(s) == s,
    decreases s.len(),
{
    if s.len() > 0 {
        assert(s[0] != '\\') by {
            assert(s[0] == s[0]);
        }
        assert(!s.drop_first().contains('\\')) by {
            if s.drop_first().contains('\\') {
                let j = choose|j: int|
                    0 <= j < s.drop_first().len() && s.drop_first()[j] == '\\';
                assert(s[j + 1] == '\\');
            }
        }
        lemma_unescape_plain(s.drop_first());
        assert(seq![s[0]] + s.drop_first() =~= s);
    }
}

/// Decoding distributes over a prefix that is a single escaped character.
proof fn lemma_unescape_escaped_char(c: char, rest: Seq<char>)
    ensures
        unescape_spec(tsv_escape_char(c) + rest) == seq![c] + unescape_spec(rest),
{
    let e = tsv_escape_char(c) + rest;
    if c == '\\' || c == '\n' || c == '\t' || c == '\r' {
        assert(e.skip(2) =~= rest);
        assert(e[0] == '\\');
    } else {
        assert(e.drop_first() =~= rest);
        assert(e[0] == c);
    }
}

/// The round trip the log format rests on: decoding what jq's `@tsv` wrote gives back the
/// value that was written, for every value.
pub proof fn lemma_unescape_inverts_tsv_escape(s: Seq<char>)
    ensures
        unescape_spec(tsv_escape(s)) == s,
    decreases s.len(),
{
    if s.len() > 0 {
        lemma_unescape_inverts_tsv_escape(s.drop_first());
        lemma_unescape_escaped_char(s[0], tsv_escape(s.drop_first()));
        assert(seq![s[0]] + s.drop_first() =~= s);
    }
}

/// An escaped value never holds a raw tab, newline or carriage return.
pub proof fn lemma_tsv_escape_has_no_raw_delimiters(s: Seq<char>)
    ensures
        !tsv_escape(s).contains('\t'),
        !tsv_escape(s).contains('\n'),
        !tsv_escape(s).contains('\r'),
    decreases s.len(),
{
    if s.len() > 0 {
        lemma_tsv_escape_has_no_raw_delimiters(s.drop_first());
        let h = tsv_escape_char(s[0]);
        let t = tsv_escape(s.drop_first());
        assert(tsv_escape(s) == h + t);
        assert forall|j: int| 0 <= j < (h + t).len() implies (h + t)[j] != '\t' && (h + t)[j]
            != '\n' && (h + t)[j] != '\r' by {
            if j >= h.len() {
                assert((h + t)[j] == t[j - h.len()]);
                assert(t.contains(t[j - h.len()]));
            }
        }
    }
}

// ---------------------------------------------------------------------------------------
// Executable helpers
// ---------------------------------------------------------------------------------------

/// The characters of `s`, in order.
pub fn str_chars(s: &str) -> (r: Vec<char>)
    ensures
        r@ == s@,
{
    broadcast use vstd::string::group_string_axioms;

    let mut r: Vec<char> = Vec::new();
    for c in it: s.chars()
        invariant
            r@ == it.seq().take(it.index() as int),
    {
        r.push(c);
    }
    r
}

/// A `String` holding `s[lo..hi]`.
pub fn string_of(s: &[char], lo: usize, hi: usize) -> (r: String)
    requires
        lo <= hi <= s@.len(),
    ensures
        r@ == s@.subrange(lo as int, hi as int),
{
    let mut r = String::new();
    append_chars(&mut r, s, lo, hi);
    r
}

/// Appends `s[lo..hi]` to `out`.
pub fn append_chars(out: &mut String, s: &[char], lo: usize, hi: usize)
    requires
        lo <= hi <= s@.len(),
    ensures
        final(out)@ == old(out)@ + s@.subrange(lo as int, hi as int),
{
    let mut i = lo;
    while i < hi
        invariant
            lo <= i <= hi <= s@.len(),
            out@ == old(out)@ + s@.subrange(lo as int, i as int),
        decreases hi - i,
    {
        push_char(out, s[i]);
        assert(s@.subrange(lo as int, i + 1) =~= s@.subrange(lo as int, i as int).push(s@[i as int]));
        i += 1;
    }
}

/// A vector holding `s[lo..hi]`.
pub fn sub_vec(s: &[char], lo: usize, hi: usize) -> (r: Vec<char>)
    requires
        lo <= hi <= s@.len(),
    ensures
        r@ == s@.subrange(lo as int, hi as int),
{
    let mut r: Vec<char> = Vec::new();
    let mut i = lo;
    while i < hi
        invariant
            lo <= i <= hi <= s@.len(),
            r@ == s@.subrange(lo as int, i as int),
        decreases hi - i,
    {
        r.push(s[i]);
        assert(s@.subrange(lo as int, i + 1) =~= s@.subrange(lo as int, i as int).push(s@[i as int]));
        i += 1;
    }
    r
}

/// `s` cut at its first `d`, as `str::split_once` does.
pub fn split_once_chars(s: &[char], d: char) -> (r: Option<(Vec<char>, Vec<char>)>)
    ensures
        match r {
            Some(kv) => split_once_spec(s@, d) == Some((kv.0@, kv.1@)),
            None => split_once_spec(s@, d) is None,
        },
{
    let n = s.len();
    match find_char_from(s, 0, d) {
        Some(e) => {
            proof {
                lemma_split_once_at(s@, d, e as int);
                assert(s@.take(e as int) =~= s@.subrange(0, e as int));
                assert(s@.skip(e + 1) =~= s@.subrange(e + 1, s@.len() as int));
            }
            Some((sub_vec(s, 0, e), sub_vec(s, e + 1, n)))
        },
        None => {
            proof {
                lemma_split_once_none(s@, d);
            }
            None
        },
    }
}

/// Whether the two character sequences are equal.
pub fn chars_eq(a: &[char], b: &[char]) -> (r: bool)
    ensures
        r == (a@ == b@),
{
    if a.len() != b.len() {
        return false;
    }
    let mut i: usize = 0;
    while i < a.len()
        invariant
            a@.len() == b@.len(),
            i <= a@.len(),
            forall|j: int| 0 <= j < i ==> a@[j] == b@[j],
        decreases a@.len() - i,
    {
        if a[i] != b[i] {
            return false;
        }
        i += 1;
    }
    assert(a@ =~= b@);
    true
}

/// Whether `s` contains `c`.
pub fn contains_char(s: &[char], c: char) -> (r: bool)
    ensures
        r == s@.contains(c),
{
    let mut i: usize = 0;
    while i < s.len()
        invariant
            i <= s@.len(),
            forall|j: int| 0 <= j < i ==> s@[j] != c,
        decreases s@.len() - i,
    {
        if s[i] == c {
            assert(s@[i as int] == c);
            return true;
        }
        i += 1;
    }
    false
}

/// Index of the first `c` in `s[from..]`, if any.
pub fn find_char_from(s: &[char], from: usize, c: char) -> (r: Option<usize>)
    requires
        from <= s@.len(),
    ensures
        match r {
            Some(i) => from <= i < s@.len() && s@[i as int] == c && forall|j: int|
                from <= j < i ==> s@[j] != c,
            None => forall|j: int| from <= j < s@.len() ==> s@[j] != c,
        },
{
    let mut i = from;
    while i < s.len()
        invariant
            from <= i <= s@.len(),
            forall|j: int| from <= j < i ==> s@[j] != c,
        decreases s@.len() - i,
    {
        if s[i] == c {
            return Some(i);
        }
        i += 1;
    }
    None
}

/// `s` split at every `d`, as `str::split` does.
pub fn split_chars(s: &[char], d: char) -> (r: Vec<Vec<char>>)
    ensures
        r@.len() == split_spec(s@, d).len(),
        forall|k: int| 0 <= k < r@.len() ==> #[trigger] r@[k]@ == split_spec(s@, d)[k],
{
    let mut done: Vec<Vec<char>> = Vec::new();
    let mut cur: Vec<char> = Vec::new();
    let mut i: usize = 0;
    proof {
        lemma_split_nonempty(s@, d);
        assert(s@.skip(0) =~= s@);
        assert(cur@ + split_spec(s@, d)[0] =~= split_spec(s@, d)[0]);
        assert(split_spec(s@, d) =~= seq![split_spec(s@, d)[0]] + split_spec(
            s@,
            d,
        ).drop_first());
    }
    while i < s.len()
        invariant
            i <= s@.len(),
            split_spec(s@.skip(i as int), d).len() >= 1,
            split_spec(s@, d) == done@.map_values(|v: Vec<char>| v@) + seq![
                cur@ + split_spec(s@.skip(i as int), d)[0],
            ] + split_spec(s@.skip(i as int), d).drop_first(),
        decreases s@.len() - i,
    {
        let ghost t = s@.skip(i as int);
        let ghost t2 = s@.skip(i + 1);
        proof {
            assert(t.drop_first() =~= t2);
            lemma_split_nonempty(t2, d);
        }
        if s[i] == d {
            let ghost old_done = done@.map_values(|v: Vec<char>| v@);
            let ghost old_cur = cur@;
            done.push(cur);
            cur = Vec::new();
            proof {
                assert(done@.map_values(|v: Vec<char>| v@) =~= old_done.push(old_cur));
                assert(split_spec(t, d) =~= seq![Seq::<char>::empty()] + split_spec(t2, d));
                assert(cur@ + split_spec(t2, d)[0] =~= split_spec(t2, d)[0]);
                assert(old_cur + Seq::<char>::empty() =~= old_cur);
                assert(split_spec(t2, d) =~= seq![split_spec(t2, d)[0]] + split_spec(
                    t2,
                    d,
                ).drop_first());
                assert(split_spec(s@, d) =~= done@.map_values(|v: Vec<char>| v@) + seq![
                    cur@ + split_spec(t2, d)[0],
                ] + split_spec(t2, d).drop_first());
            }
        } else {
            let ghost old_cur = cur@;
            cur.push(s[i]);
            proof {
                assert(split_spec(t, d) == split_spec(t2, d).update(
                    0,
                    seq![s@[i as int]] + split_spec(t2, d)[0],
                ));
                assert(split_spec(t, d).drop_first() =~= split_spec(t2, d).drop_first());
                assert(old_cur + (seq![s@[i as int]] + split_spec(t2, d)[0]) =~= cur@
                    + split_spec(t2, d)[0]);
            }
        }
        i += 1;
    }
    proof {
        assert(s@.skip(i as int) =~= Seq::<char>::empty());
        assert(cur@ + Seq::<char>::empty() =~= cur@);
    }
    let ghost old_done = done@.map_values(|v: Vec<char>| v@);
    let ghost last = cur@;
    done.push(cur);
    proof {
        assert(done@.map_values(|v: Vec<char>| v@) =~= old_done.push(last));
        assert(split_spec(s@, d) =~= done@.map_values(|v: Vec<char>| v@));
        assert forall|k: int| 0 <= k < done@.len() implies #[trigger] done@[k]@ == split_spec(
            s@,
            d,
        )[k] by {
            assert(done@.map_values(|v: Vec<char>| v@)[k] == done@[k]@);
        }
    }
    done
}

/// Index of the first occurrence of the non-empty `p` in `s`, as `str::find` does.
pub fn find_chars(s: &[char], p: &[char]) -> (r: Option<usize>)
    requires
        p@.len() > 0,
    ensures
        match r {
            Some(i) => i == find_spec(s@, p@),
            None => find_spec(s@, p@) == -1,
        },
{
    let n = s.len();
    let m = p.len();
    if m > n {
        proof {
            assert forall|j: int| 0 <= j <= n implies !p@.is_prefix_of(#[trigger] s@.skip(j)) by {}
            lemma_find_none(s@, p@);
        }
        return None;
    }
    let last = n - m;
    let mut i: usize = 0;
    while i <= last
        invariant
            n == s@.len(),
            m == p@.len(),
            m > 0,
            last + m == n,
            i <= last + 1,
            forall|j: int| 0 <= j < i ==> !p@.is_prefix_of(#[trigger] s@.skip(j)),
        decreases last + 1 - i,
    {
        let mut k: usize = 0;
        let mut ok = true;
        while k < m
            invariant
                n == s@.len(),
                m == p@.len(),
                i + m <= n,
                k <= m,
                ok == (forall|j: int| 0 <= j < k ==> s@[i + j] == p@[j]),
            decreases m - k,
        {
            if s[i + k] != p[k] {
                ok = false;
            }
            k += 1;
        }
        if ok {
            proof {
                assert(p@ =~= s@.skip(i as int).subrange(0, m as int));
                lemma_find_at(s@, p@, i as int);
            }
            return Some(i);
        } else {
            proof {
                let w = choose|j: int| 0 <= j < m && s@[i + j] != p@[j];
                assert(s@.skip(i as int)[w] != p@[w]);
            }
        }
        i += 1;
    }
    proof {
        assert forall|j: int| 0 <= j <= n implies !p@.is_prefix_of(#[trigger] s@.skip(j)) by {
            if j < i {
            }
        }
        lemma_find_none(s@, p@);
    }
    None
}

/// Decodes jq's `@tsv` escapes (see `unescape_spec`).
pub fn unescape(s: &[char]) -> (r: String)
    ensures
        r@ == unescape_spec(s@),
{
    if !contains_char(s, '\\') {
        proof {
            lemma_unescape_plain(s@);
        }
        return string_of(s, 0, s.len());
    }
    let mut out = String::new();
    let mut i: usize = 0;
    proof {
        assert(s@.skip(0) =~= s@);
    }
    while i < s.len()
        invariant
            i <= s@.len(),
            out@ + unescape_spec(s@.skip(i as int)) == unescape_spec(s@),
        decreases s@.len() - i,
    {
        let ghost t = s@.skip(i as int);
        let c = s[i];
        if c != '\\' {
            push_char(&mut out, c);
            proof {
                assert(t.drop_first() =~= s@.skip(i + 1));
                assert(out@ + unescape_spec(s@.skip(i + 1)) =~= (out@.drop_last() + (seq![c]
                    + unescape_spec(t.drop_first()))));
            }
            i += 1;
        } else if i + 1 == s.len() {
            push_char(&mut out, '\\');
            proof {
                assert(s@.skip(i + 1) =~= Seq::<char>::empty());
            }
            i += 1;
        } else {
            let o = s[i + 1];
            let ghost before = out@;
            if o == 'n' {
                push_char(&mut out, '\n');
            } else if o == 't' {
                push_char(&mut out, '\t');
            } else if o == 'r' {
                push_char(&mut out, '\r');
            } else if o == '\\' {
                push_char(&mut out, '\\');
            } else {
                push_char(&mut out, '\\');
                push_char(&mut out, o);
            }
            proof {
                assert(t.skip(2) =~= s@.skip(i + 2));
                assert(t[1] == o);
                assert(out@ + unescape_spec(s@.skip(i + 2)) =~= before + unescape_spec(t));
            }
            i += 2;
        }
    }
    proof {
        assert(s@.skip(i as int) =~= Seq::<char>::empty());
        assert(out@ + Seq::<char>::empty() =~= out@);
    }
    out
}

/// Whether `a < b` in `str` order (bytewise on the UTF-8 encodings).
pub fn str_lt(a: &str, b: &str) -> (r: bool)
    ensures
        r == bytes_lt(vstd::utf8::encode_utf8(a@), vstd::utf8::encode_utf8(b@)),
{
    let x = a.as_bytes();
    let y = b.as_bytes();
    let mut i: usize = 0;
    proof {
        assert(x@.skip(0) =~= x@);
        assert(y@.skip(0) =~= y@);
    }
    while i < x.len() && i < y.len()
        invariant
            i <= x@.len(),
            i <= y@.len(),
            x@ == vstd::utf8::encode_utf8(a@),
            y@ == vstd::utf8::encode_utf8(b@),
            bytes_lt(x@, y@) == bytes_lt(x@.skip(i as int), y@.skip(i as int)),
        decreases x@.len() - i,
    {
        if x[i] != y[i] {
            return x[i] < y[i];
        }
        proof {
            assert(x@.skip(i as int).drop_first() =~= x@.skip(i + 1));
            assert(y@.skip(i as int).drop_first() =~= y@.skip(i + 1));
        }
        i += 1;
    }
    i < y.len()
}

/// `s` with every `from` replaced by `to` (as `str::replace` with a `char` pattern does).
pub fn replace_char(s: &[char], from: char, to: &[char]) -> (r: String)
    ensures
        r@ == replace_char_spec(s@, from, to@),
{
    let mut buf: Vec<char> = Vec::new();
    let mut k: usize = 0;
    proof {
        assert(s@.take(0) =~= Seq::<char>::empty());
    }
    while k < s.len()
        invariant
            k <= s@.len(),
            buf@ == replace_char_spec(s@.take(k as int), from, to@),
        decreases s@.len() - k,
    {
        let ghost before = buf@;
        if s[k] == from {
            let mut j: usize = 0;
            while j < to.len()
                invariant
                    j <= to@.len(),
                    buf@ == before + to@.take(j as int),
                decreases to@.len() - j,
            {
                buf.push(to[j]);
                proof {
                    assert(to@.take(j + 1) =~= to@.take(j as int).push(to@[j as int]));
                }
                j += 1;
            }
            proof {
                assert(to@.take(to@.len() as int) =~= to@);
            }
        } else {
            buf.push(s[k]);
        }
        proof {
            lemma_replace_char_push(s@.take(k as int), s@[k as int], from, to@);
            assert(s@.take(k + 1) =~= s@.take(k as int).push(s@[k as int]));
        }
        k += 1;
    }
    proof {
        assert(s@.take(s@.len() as int) =~= s@);
    }
    let out = string_of(buf.as_slice(), 0, buf.len());
    proof {
        assert(buf@.subrange(0, buf@.len() as int) =~= buf@);
    }
    out
}

/// Replacing is computed one character at a time from the front.
proof fn lemma_replace_char_push(s: Seq<char>, c: char, from: char, to: Seq<char>)
    ensures
        replace_char_spec(s.push(c), from, to) == replace_char_spec(s, from, to) + (if c
            == from {
            to
        } else {
            seq![c]
        }),
    decreases s.len(),
{
    if s.len() == 0 {
        assert(s.push(c).drop_first() =~= Seq::<char>::empty());
        assert(replace_char_spec(Seq::<char>::empty(), from, to) =~= Seq::<char>::empty());
        let piece = if c == from { to } else { seq![c] };
        assert(piece + Seq::<char>::empty() =~= piece);
        assert(Seq::<char>::empty() + piece =~= piece);
    } else {
        assert(s.push(c).drop_first() =~= s.drop_first().push(c));
        lemma_replace_char_push(s.drop_first(), c, from, to);
        let head = if s[0] == from { to } else { seq![s[0]] };
        let piece = if c == from { to } else { seq![c] };
        assert(head + (replace_char_spec(s.drop_first(), from, to) + piece) =~= (head
            + replace_char_spec(s.drop_first(), from, to)) + piece);
    }
}

/// Appends one character to a `String` (`String::push`).
/// Trusted: claims only that the string afterwards is the old one with `c` appended.
#[verifier::external_body]
pub(crate) fn push_char(s: &mut String, c: char)
    ensures
        final(s)@ == old(s)@.push(c),
{
    s.push(c);
}

} // verus!
