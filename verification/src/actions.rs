//! What the panel does with an activated row: the clipboard escape sequence for a command,
//! the feedback message for an opened file, and reading which opener the plugin script
//! reports having used.
use vstd::prelude::*;

use crate::text::{append_chars, push_char, split_chars, split_spec, str_chars};

verus! {

// ---------------------------------------------------------------------------------------
// Which opener was used
// ---------------------------------------------------------------------------------------

/// Which opener the plugin script actually used - it tries the editor first and falls
/// back to the desktop opener only if that fails, so the caller can tell the user when the
/// file landed somewhere other than the intended editor view.
pub enum Opener {
    Editor,
    Fallback,
    Unknown,
}

/// The characters `char::is_whitespace` accepts (Unicode `White_Space`), which is what
/// `str::trim` strips.
pub open spec fn is_white(c: char) -> bool {
    let u = c as u32;
    (9 <= u <= 13) || u == 32 || u == 0x85 || u == 0xA0 || u == 0x1680 || (0x2000 <= u
        <= 0x200A) || u == 0x2028 || u == 0x2029 || u == 0x202F || u == 0x205F || u == 0x3000
}

/// Number of whitespace characters at the front of `s`.
pub open spec fn lead_white(s: Seq<char>) -> int
    decreases s.len(),
{
    if s.len() > 0 && is_white(s[0]) {
        1 + lead_white(s.drop_first())
    } else {
        0
    }
}

/// Number of whitespace characters at the end of `s`.
pub open spec fn trail_white(s: Seq<char>) -> int
    decreases s.len(),
{
    if s.len() > 0 && is_white(s.last()) {
        1 + trail_white(s.drop_last())
    } else {
        0
    }
}

/// `s` without leading and trailing whitespace (`str::trim`).
pub open spec fn trim_spec(s: Seq<char>) -> Seq<char> {
    let a = s.skip(lead_white(s));
    a.take(a.len() - trail_white(a))
}

/// Start of the last occurrence of the non-empty `p` in `s`, or -1.
pub open spec fn rfind_spec(s: Seq<char>, p: Seq<char>) -> int
    decreases s.len(),
{
    if p.is_suffix_of(s) {
        s.len() - p.len()
    } else if s.len() == 0 {
        -1
    } else {
        rfind_spec(s.drop_last(), p)
    }
}

pub open spec fn opener_marker() -> Seq<char> {
    seq!['o', 'p', 'e', 'n', 'e', 'r', '=']
}

/// What follows the last `opener=` in the trimmed output (all of it when there is none):
/// the first piece `rsplit("opener=")` yields.
pub open spec fn opener_word(out: Seq<char>) -> Seq<char> {
    let t = trim_spec(out);
    let i = rfind_spec(t, opener_marker());
    if i < 0 {
        t
    } else {
        t.skip(i + opener_marker().len())
    }
}

pub enum OpenerView {
    Editor,
    Fallback,
    Unknown,
}

impl View for Opener {
    type V = OpenerView;

    open spec fn view(&self) -> OpenerView {
        match self {
            Opener::Editor => OpenerView::Editor,
            Opener::Fallback => OpenerView::Fallback,
            Opener::Unknown => OpenerView::Unknown,
        }
    }
}

/// `code` is the editor; `xdg-open` and `explorer` are fallbacks; anything else is unknown.
pub open spec fn classify_spec(word: Seq<char>) -> OpenerView {
    if word == seq!['c', 'o', 'd', 'e'] {
        OpenerView::Editor
    } else if word == seq!['x', 'd', 'g', '-', 'o', 'p', 'e', 'n'] || word == seq![
        'e',
        'x',
        'p',
        'l',
        'o',
        'r',
        'e',
        'r',
    ] {
        OpenerView::Fallback
    } else {
        OpenerView::Unknown
    }
}

fn is_white_char(c: char) -> (r: bool)
    ensures
        r == is_white(c),
{
    let u = c as u32;
    (9 <= u && u <= 13) || u == 32 || u == 0x85 || u == 0xA0 || u == 0x1680 || (0x2000 <= u
        && u <= 0x200A) || u == 0x2028 || u == 0x2029 || u == 0x202F || u == 0x205F || u
        == 0x3000
}

proof fn lemma_lead_white(s: Seq<char>, i: int)
    requires
        0 <= i <= s.len(),
        forall|j: int| 0 <= j < i ==> is_white(s[j]),
        i == s.len() || !is_white(s[i]),
    ensures
        lead_white(s) == i,
    decreases i,
{
    if i > 0 {
        lemma_lead_white(s.drop_first(), i - 1);
    }
}

proof fn lemma_trail_white(s: Seq<char>, i: int)
    requires
        0 <= i <= s.len(),
        forall|j: int| s.len() - i <= j < s.len() ==> is_white(s[j]),
        i == s.len() || !is_white(s[s.len() - i - 1]),
    ensures
        trail_white(s) == i,
    decreases i,
{
    if i > 0 {
        lemma_trail_white(s.drop_last(), i - 1);
    }
}

proof fn lemma_rfind_at(s: Seq<char>, p: Seq<char>, e: int)
    requires
        p.len() <= e <= s.len(),
        p.is_suffix_of(s.take(e)),
        forall|f: int| e < f <= s.len() ==> !p.is_suffix_of(#[trigger] s.take(f)),
    ensures
        rfind_spec(s, p) == e - p.len(),
    decreases s.len() - e,
{
    if e == s.len() {
        assert(s.take(e) =~= s);
    } else {
        assert(s.take(s.len() as int) =~= s);
        assert(!p.is_suffix_of(s.take(s.len() as int)));
        assert forall|f: int| e < f <= s.drop_last().len() implies !p.is_suffix_of(
            #[trigger] s.drop_last().take(f),
        ) by {
            assert(s.drop_last().take(f) =~= s.take(f));
            assert(!p.is_suffix_of(s.take(f)));
        }
        assert(s.drop_last().take(e) =~= s.take(e));
        lemma_rfind_at(s.drop_last(), p, e);
    }
}

proof fn lemma_rfind_none(s: Seq<char>, p: Seq<char>)
    requires
        p.len() > 0,
        forall|f: int| 0 <= f <= s.len() ==> !p.is_suffix_of(#[trigger] s.take(f)),
    ensures
        rfind_spec(s, p) == -1,
    decreases s.len(),
{
    assert(s.take(s.len() as int) =~= s);
    assert(!p.is_suffix_of(s.take(s.len() as int)));
    if s.len() > 0 {
        assert forall|f: int| 0 <= f <= s.drop_last().len() implies !p.is_suffix_of(
            #[trigger] s.drop_last().take(f),
        ) by {
            assert(s.drop_last().take(f) =~= s.take(f));
            assert(!p.is_suffix_of(s.take(f)));
        }
        lemma_rfind_none(s.drop_last(), p);
    }
}

/// Bounds of `s` without its leading and trailing whitespace.
fn trim_bounds(s: &[char]) -> (r: (usize, usize))
    ensures
        r.0 <= r.1 <= s@.len(),
        s@.subrange(r.0 as int, r.1 as int) == trim_spec(s@),
{
    let n = s.len();
    let mut lead: usize = 0;
    while lead < n && is_white_char(s[lead])
        invariant
            lead <= n,
            n == s@.len(),
            forall|j: int| 0 <= j < lead ==> is_white(s@[j]),
        decreases n - lead,
    {
        lead += 1;
    }
    proof {
        lemma_lead_white(s@, lead as int);
    }
    let ghost a = s@.skip(lead as int);
    let mut trail: usize = 0;
    while trail < n - lead && is_white_char(s[n - 1 - trail])
        invariant
            lead <= n,
            n == s@.len(),
            trail <= n - lead,
            a == s@.skip(lead as int),
            forall|j: int| a.len() - trail <= j < a.len() ==> is_white(a[j]),
        decreases n - lead - trail,
    {
        proof {
            assert(a[a.len() - trail - 1] == s@[n - 1 - trail]);
        }
        trail += 1;
    }
    proof {
        if trail < n - lead {
            assert(a[a.len() - trail - 1] == s@[n - 1 - trail]);
        }
        lemma_trail_white(a, trail as int);
        assert(a.take(a.len() - trail) =~= s@.subrange(lead as int, n - trail));
    }
    (lead, n - trail)
}

/// Start (within `s[lo..hi]`) of the last `p` there, as `rfind_spec` describes.
fn rfind_in(s: &[char], lo: usize, hi: usize, p: &[char]) -> (r: Option<usize>)
    requires
        lo <= hi <= s@.len(),
        p@.len() > 0,
    ensures
        match r {
            Some(i) => i == rfind_spec(s@.subrange(lo as int, hi as int), p@),
            None => rfind_spec(s@.subrange(lo as int, hi as int), p@) == -1,
        },
{
    let ghost t = s@.subrange(lo as int, hi as int);
    let m = p.len();
    if m > hi - lo {
        proof {
            assert forall|f: int| 0 <= f <= t.len() implies !p@.is_suffix_of(#[trigger] t.take(f)) by {}
            lemma_rfind_none(t, p@);
        }
        return None;
    }
    let span = hi - lo - m;
    let mut j: usize = 0;
    while j <= span
        invariant
            lo <= hi <= s@.len(),
            m == p@.len(),
            m > 0,
            t == s@.subrange(lo as int, hi as int),
            span + m == hi - lo,
            j <= span + 1,
            forall|f: int| t.len() - j < f <= t.len() ==> !p@.is_suffix_of(#[trigger] t.take(f)),
        decreases span + 1 - j,
    {
        let e = hi - j;
        let mut k: usize = 0;
        let mut ok = true;
        while k < m
            invariant
                lo + m <= e <= hi <= s@.len(),
                m == p@.len(),
                k <= m,
                ok == (forall|q: int| 0 <= q < k ==> s@[e - m + q] == p@[q]),
            decreases m - k,
        {
            if s[e - m + k] != p[k] {
                ok = false;
            }
            k += 1;
        }
        if ok {
            proof {
                assert(p@ =~= t.take(e - lo).subrange(
                    t.take(e - lo).len() - p@.len(),
                    t.take(e - lo).len() as int,
                ));
                lemma_rfind_at(t, p@, e - lo);
            }
            return Some(e - lo - m);
        }
        proof {
            let w = choose|q: int| 0 <= q < m && s@[e - m + q] != p@[q];
            assert(t.take(e - lo)[e - lo - m + w] == s@[e - m + w]);
        }
        j += 1;
    }
    proof {
        assert forall|f: int| 0 <= f <= t.len() implies !p@.is_suffix_of(#[trigger] t.take(f)) by {
            if f < m {
            }
        }
        lemma_rfind_none(t, p@);
    }
    None
}

/// Reads the plugin script's report of which opener it used (its standard output).
pub fn classify_opener(stdout: &str) -> (r: Opener)
    ensures
        r@ == classify_spec(opener_word(stdout@)),
{
    let s = str_chars(stdout);
    let (lo, hi) = trim_bounds(s.as_slice());
    let marker = vec!['o', 'p', 'e', 'n', 'e', 'r', '='];
    proof {
        lemma_rfind_bounds(s@.subrange(lo as int, hi as int), marker@);
    }
    let word_lo = match rfind_in(s.as_slice(), lo, hi, marker.as_slice()) {
        Some(i) => lo + i + marker.len(),
        None => lo,
    };
    proof {
        let t = s@.subrange(lo as int, hi as int);
        lemma_rfind_bounds(t, marker@);
        if rfind_spec(t, marker@) >= 0 {
            assert(t.skip(rfind_spec(t, marker@) + 7) =~= s@.subrange(word_lo as int, hi as int));
        }
    }
    let word = crate::text::sub_vec(s.as_slice(), word_lo, hi);
    let code = vec!['c', 'o', 'd', 'e'];
    let xdg = vec!['x', 'd', 'g', '-', 'o', 'p', 'e', 'n'];
    let explorer = vec!['e', 'x', 'p', 'l', 'o', 'r', 'e', 'r'];
    if crate::text::chars_eq(word.as_slice(), code.as_slice()) {
        Opener::Editor
    } else if crate::text::chars_eq(word.as_slice(), xdg.as_slice())
        || crate::text::chars_eq(word.as_slice(), explorer.as_slice()) {
        Opener::Fallback
    } else {
        Opener::Unknown
    }
}

proof fn lemma_rfind_bounds(s: Seq<char>, p: Seq<char>)
    ensures
        -1 <= rfind_spec(s, p) <= s.len() - p.len() || rfind_spec(s, p) == -1,
        rfind_spec(s, p) >= 0 ==> rfind_spec(s, p) + p.len() <= s.len(),
    decreases s.len(),
{
    if !p.is_suffix_of(s) && s.len() > 0 {
        lemma_rfind_bounds(s.drop_last(), p);
    }
}

// ---------------------------------------------------------------------------------------
// Feedback for an opened file
// ---------------------------------------------------------------------------------------

/// The file name of a path as `Path::file_name` reads a `/`-separated path: the last
/// component that is neither empty nor `.`, and none when that component is `..` or there
/// is no such component.
pub open spec fn last_name(parts: Seq<Seq<char>>) -> Option<Seq<char>>
    decreases parts.len(),
{
    if parts.len() == 0 {
        None
    } else {
        let c = parts.last();
        if c.len() == 0 || c == seq!['.'] {
            last_name(parts.drop_last())
        } else if c == seq!['.', '.'] {
            None
        } else {
            Some(c)
        }
    }
}

/// How an opened file is named in the feedback message: its file name, or the whole path
/// when it has none.
pub open spec fn file_label_spec(path: Seq<char>) -> Seq<char> {
    match last_name(split_spec(path, '/')) {
        Some(n) => n,
        None => path,
    }
}

/// The feedback message after opening a file.
pub open spec fn opened_message_spec(label: Seq<char>, opener: OpenerView) -> Seq<char> {
    match opener {
        OpenerView::Fallback => "Opened "@ + label + " (fallback opener, view may not match)"@,
        _ => "Opened "@ + label,
    }
}

/// The name under which an opened file is reported (see `file_label_spec`).
pub fn file_label(path: &str) -> (r: String)
    ensures
        r@ == file_label_spec(path@),
{
    let cs = str_chars(path);
    let parts = split_chars(cs.as_slice(), '/');
    let ghost ps = split_spec(cs@, '/');
    let mut k = parts.len();
    proof {
        assert(ps.take(k as int) =~= ps);
    }
    while k > 0
        invariant
            k <= parts@.len(),
            parts@.len() == ps.len(),
            forall|j: int| 0 <= j < parts@.len() ==> #[trigger] parts@[j]@ == ps[j],
            last_name(ps) == last_name(ps.take(k as int)),
            cs@ == path@,
            ps == split_spec(path@, '/'),
        decreases k,
    {
        let c = &parts[k - 1];
        proof {
            assert(ps.take(k as int).last() == c@);
            assert(ps.take(k as int).drop_last() =~= ps.take(k - 1));
        }
        let n = c.len();
        if n == 0 || (n == 1 && c[0] == '.') {
            proof {
                if n == 1 {
                    assert(c@ =~= seq!['.']);
                }
            }
            k -= 1;
        } else if n == 2 && c[0] == '.' && c[1] == '.' {
            proof {
                assert(c@ =~= seq!['.', '.']);
                assert(c@.len() != 0 && c@ != seq!['.']);
                assert(last_name(ps.take(k as int)) == None::<Seq<char>>);
            }
            let mut out = String::new();
            append_chars(&mut out, cs.as_slice(), 0, cs.len());
            proof {
                assert(cs@.subrange(0, cs@.len() as int) =~= cs@);
                assert(Seq::<char>::empty() + cs@ =~= cs@);
            }
            return out;
        } else {
            proof {
                if c@ =~= seq!['.'] {
                    assert(c@[0] == '.');
                }
                if c@ =~= seq!['.', '.'] {
                    assert(c@[0] == '.' && c@[1] == '.');
                }
                assert(last_name(ps.take(k as int)) == Some(c@));
            }
            let mut out = String::new();
            append_chars(&mut out, c.as_slice(), 0, n);
            proof {
                assert(c@.subrange(0, n as int) =~= c@);
                assert(Seq::<char>::empty() + c@ =~= c@);
                assert(out@ == c@);
                assert(last_name(ps) == Some(c@));
                assert(ps == split_spec(path@, '/'));
            }
            return out;
        }
    }
    proof {
        assert(ps.take(0) =~= Seq::<Seq<char>>::empty());
    }
    let mut out = String::new();
    append_chars(&mut out, cs.as_slice(), 0, cs.len());
    proof {
        assert(cs@.subrange(0, cs@.len() as int) =~= cs@);
        assert(Seq::<char>::empty() + cs@ =~= cs@);
    }
    out
}

/// The feedback message after opening the file named `label` with `opener`.
pub fn opened_message(label: &str, opener: &Opener) -> (r: String)
    ensures
        r@ == opened_message_spec(label@, opener@),
{
    let head = str_chars("Opened ");
    let name = str_chars(label);
    let mut out = String::new();
    append_chars(&mut out, head.as_slice(), 0, head.len());
    append_chars(&mut out, name.as_slice(), 0, name.len());
    proof {
        assert(head@.subrange(0, head@.len() as int) =~= head@);
        assert(name@.subrange(0, name@.len() as int) =~= name@);
        assert(Seq::<char>::empty() + head@ =~= head@);
    }
    match opener {
        Opener::Fallback => {
            let tail = str_chars(" (fallback opener, view may not match)");
            append_chars(&mut out, tail.as_slice(), 0, tail.len());
            proof {
                assert(tail@.subrange(0, tail@.len() as int) =~= tail@);
            }
        },
        _ => {},
    }
    out
}

// ---------------------------------------------------------------------------------------
// The clipboard
// ---------------------------------------------------------------------------------------

/// Character `i` (0..64) of the standard base64 alphabet.
pub open spec fn b64_char(i: int) -> char {
    if i < 26 {
        (65 + i) as char
    } else if i < 52 {
        (97 + i - 26) as char
    } else if i < 62 {
        (48 + i - 52) as char
    } else if i == 62 {
        '+'
    } else {
        '/'
    }
}

/// Standard base64 (RFC 4648 alphabet, `=` padding) of `b`: each 3 bytes become 4
/// characters, a final 1 or 2 bytes become 2 or 3 characters padded to 4.
pub open spec fn base64_spec(b: Seq<u8>) -> Seq<char>
    decreases b.len(),
{
    if b.len() == 0 {
        Seq::<char>::empty()
    } else if b.len() == 1 {
        let n = b[0] * 65536;
        seq![b64_char(n / 262144), b64_char((n / 4096) % 64), '=', '=']
    } else if b.len() == 2 {
        let n = b[0] * 65536 + b[1] * 256;
        seq![b64_char(n / 262144), b64_char((n / 4096) % 64), b64_char((n / 64) % 64), '=']
    } else {
        let n = b[0] * 65536 + b[1] * 256 + b[2];
        seq![
            b64_char(n / 262144),
            b64_char((n / 4096) % 64),
            b64_char((n / 64) % 64),
            b64_char(n % 64),
        ] + base64_spec(b.skip(3))
    }
}

/// Whether the base64 text of `len` bytes has a length that fits in a `usize`.
pub open spec fn base64_fits(len: int) -> bool {
    (len / 3) * 4 + (if len % 3 > 0 {
        4int
    } else {
        0int
    }) <= usize::MAX
}

/// Encodes bytes as standard base64 with padding (`base64::Engine::encode` on
/// `base64::engine::general_purpose::STANDARD`).
/// Trusted: claims that the result is the RFC 4648 standard-alphabet encoding with `=`
/// padding; the crate panics when the encoded length overflows, which `requires` rules out.
#[verifier::external_body]
fn encode_base64(bytes: &[u8]) -> (r: String)
    requires
        base64_fits(bytes@.len() as int),
    ensures
        r@ == base64_spec(bytes@),
{
    base64::Engine::encode(&base64::engine::general_purpose::STANDARD, bytes)
}

/// The OSC 52 escape sequence that puts `text` on the terminal's own clipboard: ESC `]52;c;`,
/// the base64 of the text's UTF-8 bytes, BEL. It is the terminal's clipboard rather than
/// the process's that this reaches, which is what crosses a WSL boundary.
pub fn clipboard_sequence(text: &str) -> (r: String)
    requires
        base64_fits(vstd::utf8::encode_utf8(text@).len() as int),
    ensures
        r@ == seq!['\x1b', ']', '5', '2', ';', 'c', ';'] + base64_spec(
            vstd::utf8::encode_utf8(text@),
        ) + seq!['\x07'],
{
    let encoded = encode_base64(text.as_bytes());
    let body = str_chars(encoded.as_str());
    let mut out = String::new();
    push_char(&mut out, '\x1b');
    push_char(&mut out, ']');
    push_char(&mut out, '5');
    push_char(&mut out, '2');
    push_char(&mut out, ';');
    push_char(&mut out, 'c');
    push_char(&mut out, ';');
    append_chars(&mut out, body.as_slice(), 0, body.len());
    push_char(&mut out, '\x07');
    proof {
        assert(body@.subrange(0, body@.len() as int) =~= body@);
        assert(out@ =~= seq!['\x1b', ']', '5', '2', ';', 'c', ';'] + body@ + seq!['\x07']);
    }
    out
}

} // verus!
