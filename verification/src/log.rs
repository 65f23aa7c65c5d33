//! Parsing of `review.log` lines and the grouped rows they turn into.
//!
//! Two line formats coexist. v2 (current) is tab-delimited:
//!   `2026-09-09 11:24:32<TAB>session=...<TAB>repo=NAME<TAB>cwd=PATH<TAB>kind=review|command<TAB>[step=LABEL]<TAB>[warn=REASON]<TAB>item=VALUE`
//! v1 (legacy) used spaces as the delimiter. v2 values are escaped exactly as jq's `@tsv`
//! does it (`\t` `\n` `\r` `\\`), so a value can never contain a raw delimiter and
//! splitting is total. Lines are told apart by the presence of a tab, which v1 could not
//! emit.
//!
//! `kind=` is absent on lines written before commands existed - those are always reviews.
//! `step=` is only present on commands the reply explicitly ordered.
//! `warn=` is only present on items the writer flagged (a prose-like command, a misclosed
//! tag, a review target that did not resolve).
use vstd::prelude::*;

use crate::text::{
    append_chars, chars_eq, contains_char, find_chars, lemma_find_bounds,
    lemma_split_nonempty, split_chars, split_once_chars, split_once_spec, split_spec, str_chars,
    string_of, sub_vec, unescape, unescape_spec, find_spec, push_char, str_lt, bytes_lt,
};
use crate::marks::MarkSet;

verus! {

/// One record of the log, decoded.
pub struct ParsedLine {
    pub ts: String,
    pub session: String,
    pub repo: String,
    pub cwd: Option<String>,
    pub is_command: bool,
    pub step: Option<String>,
    /// Set when the writer flagged this item (see `warn=` in the module doc).
    pub warn: Option<String>,
    /// The decoded value, for display and for opening files.
    pub item: String,
    /// The value exactly as it appears in the log, still escaped. Mark keys are built
    /// from this rather than `item`, so a multiline command still has a one-line key.
    pub raw_item: String,
}

/// The contents of a `ParsedLine`, as character sequences.
pub struct LineView {
    pub ts: Seq<char>,
    pub session: Seq<char>,
    pub repo: Seq<char>,
    pub cwd: Option<Seq<char>>,
    pub is_command: bool,
    pub step: Option<Seq<char>>,
    pub warn: Option<Seq<char>>,
    pub item: Seq<char>,
    pub raw_item: Seq<char>,
}

/// The characters of an optional string.
pub open spec fn opt_view(o: Option<String>) -> Option<Seq<char>> {
    match o {
        Some(s) => Some(s@),
        None => None,
    }
}

/// The characters of an optional character vector.
pub open spec fn opt_chars(o: Option<Vec<char>>) -> Option<Seq<char>> {
    match o {
        Some(v) => Some(v@),
        None => None,
    }
}

impl View for ParsedLine {
    type V = LineView;

    open spec fn view(&self) -> LineView {
        LineView {
            ts: self.ts@,
            session: self.session@,
            repo: self.repo@,
            cwd: opt_view(self.cwd),
            is_command: self.is_command,
            step: opt_view(self.step),
            warn: opt_view(self.warn),
            item: self.item@,
            raw_item: self.raw_item@,
        }
    }
}

/// The view of an optional parsed line.
pub open spec fn opt_line_view(o: Option<ParsedLine>) -> Option<LineView> {
    match o {
        Some(p) => Some(p@),
        None => None,
    }
}

// ---------------------------------------------------------------------------------------
// The line formats
// ---------------------------------------------------------------------------------------

pub open spec fn key_session() -> Seq<char> {
    seq!['s', 'e', 's', 's', 'i', 'o', 'n']
}

pub open spec fn key_repo() -> Seq<char> {
    seq!['r', 'e', 'p', 'o']
}

pub open spec fn key_cwd() -> Seq<char> {
    seq!['c', 'w', 'd']
}

pub open spec fn key_kind() -> Seq<char> {
    seq!['k', 'i', 'n', 'd']
}

pub open spec fn key_step() -> Seq<char> {
    seq!['s', 't', 'e', 'p']
}

pub open spec fn key_warn() -> Seq<char> {
    seq!['w', 'a', 'r', 'n']
}

pub open spec fn key_item() -> Seq<char> {
    seq!['i', 't', 'e', 'm']
}

/// The `kind=` value that marks a command.
pub open spec fn word_command() -> Seq<char> {
    seq!['c', 'o', 'm', 'm', 'a', 'n', 'd']
}

/// A v1 field marker: the key followed by `=`.
pub open spec fn marker(key: Seq<char>) -> Seq<char> {
    key + seq!['=']
}

/// The value of the last whole field whose key (the text before its first `=`) is `key`.
pub open spec fn field_value(fields: Seq<Seq<char>>, key: Seq<char>) -> Option<Seq<char>>
    decreases fields.len(),
{
    if fields.len() == 0 {
        None
    } else {
        match split_once_spec(fields.last(), '=') {
            Some(kv) => if kv.0 == key {
                Some(kv.1)
            } else {
                field_value(fields.drop_last(), key)
            },
            None => field_value(fields.drop_last(), key),
        }
    }
}

/// A v2 timestamp must be 19 bytes long with a space at byte 10 ("YYYY-MM-DD HH:MM:SS"),
/// which keeps a stray tabbed line from being read as a record.
pub open spec fn ts_shape_ok(ts: Seq<char>) -> bool {
    vstd::utf8::encode_utf8(ts).len() == 19 && vstd::utf8::encode_utf8(ts)[10] == 32u8
}

pub open spec fn unescape_opt(o: Option<Seq<char>>) -> Option<Seq<char>> {
    match o {
        Some(v) => Some(unescape_spec(v)),
        None => None,
    }
}

pub open spec fn or_empty(o: Option<Seq<char>>) -> Seq<char> {
    match o {
        Some(v) => v,
        None => Seq::<char>::empty(),
    }
}

/// What a tab-delimited (v2) line decodes to.
pub open spec fn parse_v2_spec(line: Seq<char>) -> Option<LineView> {
    let fields = split_spec(line, '\t');
    let ts = fields[0];
    let rest = fields.drop_first();
    if !ts_shape_ok(ts) {
        None
    } else {
        match (field_value(rest, key_repo()), field_value(rest, key_item())) {
            (Some(repo), Some(item)) => Some(
                LineView {
                    ts,
                    session: or_empty(field_value(rest, key_session())),
                    repo: unescape_spec(repo),
                    cwd: unescape_opt(field_value(rest, key_cwd())),
                    is_command: field_value(rest, key_kind()) == Some(word_command()),
                    step: unescape_opt(field_value(rest, key_step())),
                    warn: field_value(rest, key_warn()),
                    item: unescape_spec(item),
                    raw_item: item,
                },
            ),
            _ => None,
        }
    }
}

/// The word after the first occurrence of `key` in `s`, up to the next space
/// (the legacy format's field lookup).
pub open spec fn extract_field_spec(s: Seq<char>, key: Seq<char>) -> Option<Seq<char>> {
    let i = find_spec(s, key);
    if i < 0 {
        None
    } else {
        let after = s.skip(i + key.len());
        match split_once_spec(after, ' ') {
            Some(kv) => Some(kv.0),
            None => Some(after),
        }
    }
}

/// Everything after the first occurrence of `key` in `s`.
pub open spec fn extract_rest_spec(s: Seq<char>, key: Seq<char>) -> Option<Seq<char>> {
    let i = find_spec(s, key);
    if i < 0 {
        None
    } else {
        Some(s.skip(i + key.len()))
    }
}

/// The part of a legacy line after its date and time.
pub open spec fn v1_rest(after_date: Seq<char>) -> Seq<char> {
    match split_once_spec(after_date, ' ') {
        Some(p) => p.1,
        None => Seq::<char>::empty(),
    }
}

/// The time of a legacy line.
pub open spec fn v1_time(after_date: Seq<char>) -> Seq<char> {
    match split_once_spec(after_date, ' ') {
        Some(p) => p.0,
        None => after_date,
    }
}

/// What a space-delimited (v1) line decodes to.
pub open spec fn parse_v1_spec(line: Seq<char>) -> Option<LineView> {
    match split_once_spec(line, ' ') {
        None => None,
        Some(p1) => {
            let date = p1.0;
            let time = v1_time(p1.1);
            let rest = v1_rest(p1.1);
            if date.len() == 0 || time.len() == 0 {
                None
            } else {
                match (
                    extract_field_spec(rest, marker(key_repo())),
                    extract_rest_spec(rest, marker(key_item())),
                ) {
                    (Some(repo), Some(item)) => Some(
                        LineView {
                            ts: date + seq![' '] + time,
                            session: or_empty(extract_field_spec(rest, marker(key_session()))),
                            repo,
                            cwd: extract_field_spec(rest, marker(key_cwd())),
                            is_command: extract_field_spec(rest, marker(key_kind())) == Some(
                                word_command(),
                            ),
                            step: extract_field_spec(rest, marker(key_step())),
                            warn: extract_field_spec(rest, marker(key_warn())),
                            item,
                            raw_item: item,
                        },
                    ),
                    _ => None,
                }
            }
        },
    }
}

/// What a log line decodes to: v2 when it holds a tab, v1 otherwise.
pub open spec fn parse_line_spec(line: Seq<char>) -> Option<LineView> {
    if line.contains('\t') {
        parse_v2_spec(line)
    } else {
        parse_v1_spec(line)
    }
}

// ---------------------------------------------------------------------------------------
// Parsing
// ---------------------------------------------------------------------------------------

/// Decodes one log line; `None` for a line that is not a record.
pub fn parse_line(line: &str) -> (r: Option<ParsedLine>)
    ensures
        opt_line_view(r) == parse_line_spec(line@),
{
    let cs = str_chars(line);
    if contains_char(cs.as_slice(), '\t') {
        parse_v2(cs.as_slice())
    } else {
        parse_v1(cs.as_slice())
    }
}

fn opt_string(o: &Option<Vec<char>>) -> (r: Option<String>)
    ensures
        opt_view(r) == opt_chars(*o),
{
    match o {
        Some(v) => {
            proof {
                assert(v@.subrange(0, v@.len() as int) =~= v@);
            }
            Some(string_of(v.as_slice(), 0, v.len()))
        },
        None => None,
    }
}

fn opt_unescape(o: &Option<Vec<char>>) -> (r: Option<String>)
    ensures
        opt_view(r) == unescape_opt(opt_chars(*o)),
{
    match o {
        Some(v) => Some(unescape(v.as_slice())),
        None => None,
    }
}

fn parse_v2(line: &[char]) -> (r: Option<ParsedLine>)
    ensures
        opt_line_view(r) == parse_v2_spec(line@),
{
    let fields = split_chars(line, '\t');
    let ghost f = split_spec(line@, '\t');
    proof {
        lemma_split_nonempty(line@, '\t');
    }
    let ts = string_of(fields[0].as_slice(), 0, fields[0].len());
    proof {
        assert(fields@[0]@.subrange(0, fields@[0]@.len() as int) =~= fields@[0]@);
    }
    let tb = ts.as_str().as_bytes();
    if tb.len() != 19 || tb[10] != 32u8 {
        return None;
    }
    let k_session = vec!['s', 'e', 's', 's', 'i', 'o', 'n'];
    let k_repo = vec!['r', 'e', 'p', 'o'];
    let k_cwd = vec!['c', 'w', 'd'];
    let k_kind = vec!['k', 'i', 'n', 'd'];
    let k_step = vec!['s', 't', 'e', 'p'];
    let k_warn = vec!['w', 'a', 'r', 'n'];
    let k_item = vec!['i', 't', 'e', 'm'];
    let w_command = vec!['c', 'o', 'm', 'm', 'a', 'n', 'd'];
    let mut session: Option<Vec<char>> = None;
    let mut repo: Option<Vec<char>> = None;
    let mut cwd: Option<Vec<char>> = None;
    let mut kind: Option<Vec<char>> = None;
    let mut step: Option<Vec<char>> = None;
    let mut warn: Option<Vec<char>> = None;
    let mut item: Option<Vec<char>> = None;
    let mut j: usize = 1;
    proof {
        assert(f.subrange(1, 1) =~= Seq::<Seq<char>>::empty());
    }
    while j < fields.len()
        invariant
            1 <= j <= fields@.len(),
            fields@.len() == f.len(),
            forall|k: int| 0 <= k < fields@.len() ==> #[trigger] fields@[k]@ == f[k],
            k_session@ == key_session(),
            k_repo@ == key_repo(),
            k_cwd@ == key_cwd(),
            k_kind@ == key_kind(),
            k_step@ == key_step(),
            k_warn@ == key_warn(),
            k_item@ == key_item(),
            opt_chars(session) == field_value(f.subrange(1, j as int), key_session()),
            opt_chars(repo) == field_value(f.subrange(1, j as int), key_repo()),
            opt_chars(cwd) == field_value(f.subrange(1, j as int), key_cwd()),
            opt_chars(kind) == field_value(f.subrange(1, j as int), key_kind()),
            opt_chars(step) == field_value(f.subrange(1, j as int), key_step()),
            opt_chars(warn) == field_value(f.subrange(1, j as int), key_warn()),
            opt_chars(item) == field_value(f.subrange(1, j as int), key_item()),
        decreases fields@.len() - j,
    {
        let ghost fs = f.subrange(1, j + 1);
        proof {
            assert(fs.drop_last() =~= f.subrange(1, j as int));
            assert(fs.last() == f[j as int]);
            assert(fields@[j as int]@ == f[j as int]);
        }
        match split_once_chars(fields[j].as_slice(), '=') {
            Some(kv) => {
                let (k, v) = kv;
                if chars_eq(k.as_slice(), k_session.as_slice()) {
                    session = Some(v);
                } else if chars_eq(k.as_slice(), k_repo.as_slice()) {
                    repo = Some(v);
                } else if chars_eq(k.as_slice(), k_cwd.as_slice()) {
                    cwd = Some(v);
                } else if chars_eq(k.as_slice(), k_kind.as_slice()) {
                    kind = Some(v);
                } else if chars_eq(k.as_slice(), k_step.as_slice()) {
                    step = Some(v);
                } else if chars_eq(k.as_slice(), k_warn.as_slice()) {
                    warn = Some(v);
                } else if chars_eq(k.as_slice(), k_item.as_slice()) {
                    item = Some(v);
                }
            },
            None => {},
        }
        j += 1;
    }
    proof {
        assert(f.subrange(1, f.len() as int) =~= f.drop_first());
    }
    match (&repo, &item) {
        (Some(rp), Some(it)) => {
            let is_command = match &kind {
                Some(v) => chars_eq(v.as_slice(), w_command.as_slice()),
                None => false,
            };
            let session_s = match opt_string(&session) {
                Some(v) => v,
                None => String::new(),
            };
            proof {
                assert(rp@.subrange(0, rp@.len() as int) =~= rp@);
                assert(it@.subrange(0, it@.len() as int) =~= it@);
            }
            Some(
                ParsedLine {
                    ts,
                    session: session_s,
                    repo: unescape(rp.as_slice()),
                    cwd: opt_unescape(&cwd),
                    is_command,
                    step: opt_unescape(&step),
                    warn: opt_string(&warn),
                    item: unescape(it.as_slice()),
                    raw_item: string_of(it.as_slice(), 0, it.len()),
                },
            )
        },
        _ => None,
    }
}

/// The word after the first `key` in `s`, up to the next space.
fn extract_field(s: &[char], key: &[char]) -> (r: Option<Vec<char>>)
    requires
        key@.len() > 0,
    ensures
        opt_chars(r) == extract_field_spec(s@, key@),
{
    let n = s.len();
    match find_chars(s, key) {
        None => None,
        Some(idx) => {
            proof {
                lemma_find_bounds(s@, key@);
                assert(s@.skip(idx + key@.len()) =~= s@.subrange(
                    idx + key@.len(),
                    s@.len() as int,
                ));
            }
            let after = sub_vec(s, idx + key.len(), n);
            match split_once_chars(after.as_slice(), ' ') {
                Some(kv) => Some(kv.0),
                None => Some(after),
            }
        },
    }
}

/// Everything after the first `key` in `s`.
fn extract_rest(s: &[char], key: &[char]) -> (r: Option<Vec<char>>)
    requires
        key@.len() > 0,
    ensures
        opt_chars(r) == extract_rest_spec(s@, key@),
{
    let n = s.len();
    match find_chars(s, key) {
        None => None,
        Some(idx) => {
            proof {
                lemma_find_bounds(s@, key@);
                assert(s@.skip(idx + key@.len()) =~= s@.subrange(
                    idx + key@.len(),
                    s@.len() as int,
                ));
            }
            Some(sub_vec(s, idx + key.len(), n))
        },
    }
}

fn parse_v1(line: &[char]) -> (r: Option<ParsedLine>)
    ensures
        opt_line_view(r) == parse_v1_spec(line@),
{
    let (date, after_date) = match split_once_chars(line, ' ') {
        Some(p) => p,
        None => return None,
    };
    let (time, rest) = match split_once_chars(after_date.as_slice(), ' ') {
        Some(p) => p,
        None => (after_date, Vec::new()),
    };
    if date.len() == 0 || time.len() == 0 {
        return None;
    }
    let m_session = vec!['s', 'e', 's', 's', 'i', 'o', 'n', '='];
    let m_repo = vec!['r', 'e', 'p', 'o', '='];
    let m_cwd = vec!['c', 'w', 'd', '='];
    let m_kind = vec!['k', 'i', 'n', 'd', '='];
    let m_step = vec!['s', 't', 'e', 'p', '='];
    let m_warn = vec!['w', 'a', 'r', 'n', '='];
    let m_item = vec!['i', 't', 'e', 'm', '='];
    let w_command = vec!['c', 'o', 'm', 'm', 'a', 'n', 'd'];
    proof {
        assert(m_session@ =~= marker(key_session()));
        assert(m_repo@ =~= marker(key_repo()));
        assert(m_cwd@ =~= marker(key_cwd()));
        assert(m_kind@ =~= marker(key_kind()));
        assert(m_step@ =~= marker(key_step()));
        assert(m_warn@ =~= marker(key_warn()));
        assert(m_item@ =~= marker(key_item()));
    }
    let session = extract_field(rest.as_slice(), m_session.as_slice());
    let repo = match extract_field(rest.as_slice(), m_repo.as_slice()) {
        Some(v) => v,
        None => return None,
    };
    let cwd = extract_field(rest.as_slice(), m_cwd.as_slice());
    let is_command = match extract_field(rest.as_slice(), m_kind.as_slice()) {
        Some(v) => chars_eq(v.as_slice(), w_command.as_slice()),
        None => false,
    };
    let step = extract_field(rest.as_slice(), m_step.as_slice());
    let warn = extract_field(rest.as_slice(), m_warn.as_slice());
    let item = match extract_rest(rest.as_slice(), m_item.as_slice()) {
        Some(v) => v,
        None => return None,
    };
    let mut ts = String::new();
    append_chars(&mut ts, date.as_slice(), 0, date.len());
    push_char(&mut ts, ' ');
    append_chars(&mut ts, time.as_slice(), 0, time.len());
    let session_s = match opt_string(&session) {
        Some(v) => v,
        None => String::new(),
    };
    proof {
        assert(date@.subrange(0, date@.len() as int) =~= date@);
        assert(time@.subrange(0, time@.len() as int) =~= time@);
        assert(repo@.subrange(0, repo@.len() as int) =~= repo@);
        assert(item@.subrange(0, item@.len() as int) =~= item@);
        assert(Seq::<char>::empty() + date@ =~= date@);
        assert(ts@ =~= date@ + seq![' '] + time@);
    }
    Some(
        ParsedLine {
            ts,
            session: session_s,
            repo: string_of(repo.as_slice(), 0, repo.len()),
            cwd: opt_string(&cwd),
            is_command,
            step: opt_string(&step),
            warn: opt_string(&warn),
            item: string_of(item.as_slice(), 0, item.len()),
            raw_item: string_of(item.as_slice(), 0, item.len()),
        },
    )
}


// ---------------------------------------------------------------------------------------
// Rows
// ---------------------------------------------------------------------------------------

/// A single row of the rendered display. Blank and GroupHeader rows carry no key and are
/// never cleared one by one, only pruned once every item under them has been.
pub enum Row {
    Blank,
    GroupHeader { ts: String, repo: String },
    /// `key` identifies this exact log entry for the cleared marks.
    FileItem {
        label: String,
        abspath: Option<String>,
        /// Some(reason) when the writer flagged this target (e.g. "missing").
        warn: Option<String>,
        key: String,
    },
    /// `key` identifies this exact log entry for the done and cleared marks.
    CommandItem {
        command: String,
        step: Option<String>,
        /// Some(reason) when the writer flagged this command (e.g. "prose").
        warn: Option<String>,
        key: String,
    },
}

/// The contents of a `Row`, as character sequences.
pub enum RowView {
    Blank,
    GroupHeader { ts: Seq<char>, repo: Seq<char> },
    FileItem {
        label: Seq<char>,
        abspath: Option<Seq<char>>,
        warn: Option<Seq<char>>,
        key: Seq<char>,
    },
    CommandItem {
        command: Seq<char>,
        step: Option<Seq<char>>,
        warn: Option<Seq<char>>,
        key: Seq<char>,
    },
}

impl View for Row {
    type V = RowView;

    open spec fn view(&self) -> RowView {
        match self {
            Row::Blank => RowView::Blank,
            Row::GroupHeader { ts, repo } => RowView::GroupHeader { ts: ts@, repo: repo@ },
            Row::FileItem { label, abspath, warn, key } => RowView::FileItem {
                label: label@,
                abspath: opt_view(*abspath),
                warn: opt_view(*warn),
                key: key@,
            },
            Row::CommandItem { command, step, warn, key } => RowView::CommandItem {
                command: command@,
                step: opt_view(*step),
                warn: opt_view(*warn),
                key: key@,
            },
        }
    }
}

/// The views of a list of rows.
pub open spec fn rows_view(rows: Seq<Row>) -> Seq<RowView> {
    rows.map_values(|r: Row| r@)
}

/// The group a row list last opened: (timestamp, repo).
pub open spec fn group_view(g: Option<(String, String)>) -> Option<(Seq<char>, Seq<char>)> {
    match g {
        Some(p) => Some((p.0@, p.1@)),
        None => None,
    }
}

/// Whether a row is an item (a file or a command), the only rows that can be activated.
pub open spec fn is_item(r: RowView) -> bool {
    r is FileItem || r is CommandItem
}

/// The mark key of an item row; `None` for Blank and GroupHeader rows.
pub open spec fn key_of(r: RowView) -> Option<Seq<char>> {
    match r {
        RowView::FileItem { key, .. } => Some(key),
        RowView::CommandItem { key, .. } => Some(key),
        _ => None,
    }
}

/// Where an item path points: absolute paths as they are, `~` and `~/...` under `home`,
/// anything else under the hook's `cwd` (no answer without one).
pub open spec fn resolve_abspath_spec(
    item: Seq<char>,
    cwd: Option<Seq<char>>,
    home: Seq<char>,
) -> Option<Seq<char>> {
    if item.len() > 0 && item[0] == '/' {
        Some(item)
    } else if item =~= seq!['~'] || (item.len() >= 2 && item[0] == '~' && item[1] == '/') {
        Some(home + item.skip(1))
    } else {
        match cwd {
            Some(c) => Some(c + seq!['/'] + item),
            None => None,
        }
    }
}

/// The mark key of a record: `ts|session|raw_item`.
pub open spec fn item_key_spec(l: LineView) -> Seq<char> {
    l.ts + seq!['|'] + l.session + seq!['|'] + l.raw_item
}

/// The item row a record turns into.
pub open spec fn row_for(l: LineView, home: Seq<char>) -> RowView {
    if l.is_command {
        RowView::CommandItem {
            command: l.item,
            step: l.step,
            warn: l.warn,
            key: item_key_spec(l),
        }
    } else {
        RowView::FileItem {
            label: l.item,
            abspath: resolve_abspath_spec(l.item, l.cwd, home),
            warn: l.warn,
            key: item_key_spec(l),
        }
    }
}

/// The rows and open group after one record: nothing happens for a cleared item; otherwise
/// a new (timestamp, repo) group first gets a blank line and a header, then the item row.
pub open spec fn append_row_spec(
    rows: Seq<RowView>,
    last: Option<(Seq<char>, Seq<char>)>,
    l: LineView,
    home: Seq<char>,
    cleared: Set<Seq<char>>,
) -> (Seq<RowView>, Option<(Seq<char>, Seq<char>)>) {
    if cleared.contains(item_key_spec(l)) {
        (rows, last)
    } else if last == Some((l.ts, l.repo)) {
        (rows.push(row_for(l, home)), last)
    } else {
        (
            rows + seq![
                RowView::Blank,
                RowView::GroupHeader { ts: l.ts, repo: l.repo },
                row_for(l, home),
            ],
            Some((l.ts, l.repo)),
        )
    }
}

/// Resolves a logged item path (see `resolve_abspath_spec`).
pub fn resolve_abspath(item: &str, cwd: Option<&str>, home: &str) -> (r: Option<String>)
    ensures
        opt_view(r) == resolve_abspath_spec(
            item@,
            match cwd {
                Some(c) => Some(c@),
                None => None,
            },
            home@,
        ),
{
    let it = str_chars(item);
    let n = it.len();
    if n > 0 && it[0] == '/' {
        proof {
            assert(it@.subrange(0, n as int) =~= it@);
        }
        Some(string_of(it.as_slice(), 0, n))
    } else if (n == 1 && it[0] == '~') || (n >= 2 && it[0] == '~' && it[1] == '/') {
        let h = str_chars(home);
        let mut out = String::new();
        append_chars(&mut out, h.as_slice(), 0, h.len());
        append_chars(&mut out, it.as_slice(), 1, n);
        proof {
            assert(h@.subrange(0, h@.len() as int) =~= h@);
            assert(it@.subrange(1, n as int) =~= it@.skip(1));
            assert(Seq::<char>::empty() + h@ =~= h@);
            if n == 1 {
                assert(it@ =~= seq!['~']);
            }
        }
        Some(out)
    } else {
        proof {
            assert(!(it@ =~= seq!['~'])) by {
                if it@ =~= seq!['~'] {
                    assert(it@[0] == '~');
                }
            }
        }
        match cwd {
            Some(c) => {
                let cc = str_chars(c);
                let mut out = String::new();
                append_chars(&mut out, cc.as_slice(), 0, cc.len());
                push_char(&mut out, '/');
                append_chars(&mut out, it.as_slice(), 0, n);
                proof {
                    assert(cc@.subrange(0, cc@.len() as int) =~= cc@);
                    assert(it@.subrange(0, n as int) =~= it@);
                    assert(out@ =~= cc@ + seq!['/'] + it@);
                }
                Some(out)
            },
            None => None,
        }
    }
}

fn clone_opt(o: &Option<String>) -> (r: Option<String>)
    ensures
        opt_view(r) == opt_view(*o),
{
    match o {
        Some(s) => Some(s.clone()),
        None => None,
    }
}

/// Turns one parsed record into its display row(s), appending to `rows` and tracking
/// `last_key` across calls so consecutive items sharing a timestamp and repo sit under one
/// header. An item already in `cleared` adds nothing and leaves `last_key` as it was, so
/// the next item of the same group still gets a header of its own.
pub fn append_row(
    rows: &mut Vec<Row>,
    last_key: &mut Option<(String, String)>,
    line: &ParsedLine,
    home: &str,
    cleared: &MarkSet,
)
    ensures
        (rows_view(final(rows)@), group_view(*final(last_key))) == append_row_spec(
            rows_view(old(rows)@),
            group_view(*old(last_key)),
            line@,
            home@,
            cleared@,
        ),
{
    let ts = str_chars(line.ts.as_str());
    let session = str_chars(line.session.as_str());
    let raw = str_chars(line.raw_item.as_str());
    let mut item_key = String::new();
    append_chars(&mut item_key, ts.as_slice(), 0, ts.len());
    push_char(&mut item_key, '|');
    append_chars(&mut item_key, session.as_slice(), 0, session.len());
    push_char(&mut item_key, '|');
    append_chars(&mut item_key, raw.as_slice(), 0, raw.len());
    proof {
        assert(ts@.subrange(0, ts@.len() as int) =~= ts@);
        assert(session@.subrange(0, session@.len() as int) =~= session@);
        assert(raw@.subrange(0, raw@.len() as int) =~= raw@);
        assert(item_key@ =~= item_key_spec(line@));
    }
    if cleared.contains(&item_key) {
        return;
    }
    let is_new_group = match last_key {
        Some(k) => !(k.0 == line.ts && k.1 == line.repo),
        None => true,
    };
    let ghost before = rows_view(rows@);
    if is_new_group {
        rows.push(Row::Blank);
        rows.push(Row::GroupHeader { ts: line.ts.clone(), repo: line.repo.clone() });
        *last_key = Some((line.ts.clone(), line.repo.clone()));
    }
    let row = if line.is_command {
        Row::CommandItem {
            command: line.item.clone(),
            step: clone_opt(&line.step),
            warn: clone_opt(&line.warn),
            key: item_key,
        }
    } else {
        let abspath = match &line.cwd {
            Some(c) => resolve_abspath(line.item.as_str(), Some(c.as_str()), home),
            None => resolve_abspath(line.item.as_str(), None, home),
        };
        Row::FileItem {
            label: line.item.clone(),
            abspath,
            warn: clone_opt(&line.warn),
            key: item_key,
        }
    };
    proof {
        assert(row@ == row_for(line@, home@));
    }
    rows.push(row);
    proof {
        if is_new_group {
            assert(rows_view(rows@) =~= before + seq![
                RowView::Blank,
                RowView::GroupHeader { ts: line@.ts, repo: line@.repo },
                row_for(line@, home@),
            ]);
        } else {
            assert(rows_view(rows@) =~= before.push(row_for(line@, home@)));
        }
    }
}


// ---------------------------------------------------------------------------------------
// Reading the log
// ---------------------------------------------------------------------------------------

/// The views of a list of lines.
pub open spec fn lines_view(lines: Seq<String>) -> Seq<Seq<char>> {
    lines.map_values(|l: String| l@)
}

/// Bytes taken by `lines` in the file, each with its newline.
pub open spec fn lines_bytes(lines: Seq<Seq<char>>) -> int
    decreases lines.len(),
{
    if lines.len() == 0 {
        0
    } else {
        lines_bytes(lines.drop_last()) + vstd::utf8::encode_utf8(lines.last()).len() + 1
    }
}

/// Whether a record's timestamp is at or after the cutoff (no cutoff admits everything).
/// Timestamps compare as `str`s do, bytewise.
pub open spec fn passes_cutoff(ts: Seq<char>, cutoff: Option<Seq<char>>) -> bool {
    match cutoff {
        Some(c) => !bytes_lt(vstd::utf8::encode_utf8(ts), vstd::utf8::encode_utf8(c)),
        None => true,
    }
}

/// The rows and open group after feeding `lines`, in order, through `append_row_spec`,
/// skipping lines that are not records and records before the cutoff.
pub open spec fn fold_rows(
    lines: Seq<Seq<char>>,
    cutoff: Option<Seq<char>>,
    start: (Seq<RowView>, Option<(Seq<char>, Seq<char>)>),
    home: Seq<char>,
    cleared: Set<Seq<char>>,
) -> (Seq<RowView>, Option<(Seq<char>, Seq<char>)>)
    decreases lines.len(),
{
    if lines.len() == 0 {
        start
    } else {
        let prev = fold_rows(lines.drop_last(), cutoff, start, home, cleared);
        match parse_line_spec(lines.last()) {
            Some(p) => if passes_cutoff(p.ts, cutoff) {
                append_row_spec(prev.0, prev.1, p, home, cleared)
            } else {
                prev
            },
            None => prev,
        }
    }
}

/// A prefix of the lines takes no more bytes than all of them.
pub proof fn lemma_lines_bytes_prefix(lines: Seq<Seq<char>>, k: int)
    requires
        0 <= k <= lines.len(),
    ensures
        lines_bytes(lines.take(k)) <= lines_bytes(lines),
    decreases lines.len(),
{
    if k < lines.len() {
        assert(lines.drop_last().take(k) =~= lines.take(k));
        lemma_lines_bytes_prefix(lines.drop_last(), k);
    } else {
        assert(lines.take(k) =~= lines);
    }
}

/// Reads every line handed over from the log (as `BufRead::lines` yields them) and appends
/// the records whose timestamp is at or after `cutoff` ("YYYY-MM-DD HH:MM:SS", which sorts
/// as a plain string). Returns the byte offset to resume tailing from: each line's length
/// plus one for its newline.
pub fn backfill(
    lines: &Vec<String>,
    cutoff: &str,
    rows: &mut Vec<Row>,
    last_key: &mut Option<(String, String)>,
    home: &str,
    cleared: &MarkSet,
) -> (offset: u64)
    requires
        lines_bytes(lines_view(lines@)) <= u64::MAX,
    ensures
        offset == lines_bytes(lines_view(lines@)),
        (rows_view(final(rows)@), group_view(*final(last_key))) == fold_rows(
            lines_view(lines@),
            Some(cutoff@),
            (rows_view(old(rows)@), group_view(*old(last_key))),
            home@,
            cleared@,
        ),
{
    let ghost all = lines_view(lines@);
    let ghost start = (rows_view(rows@), group_view(*last_key));
    let mut offset: u64 = 0;
    let mut i: usize = 0;
    proof {
        assert(all.take(0) =~= Seq::<Seq<char>>::empty());
    }
    while i < lines.len()
        invariant
            i <= lines@.len(),
            all == lines_view(lines@),
            lines_bytes(all) <= u64::MAX,
            offset == lines_bytes(all.take(i as int)),
            (rows_view(rows@), group_view(*last_key)) == fold_rows(
                all.take(i as int),
                Some(cutoff@),
                start,
                home@,
                cleared@,
            ),
        decreases lines@.len() - i,
    {
        let line = &lines[i];
        proof {
            assert(all.take(i + 1).drop_last() =~= all.take(i as int));
            assert(all.take(i + 1).last() == line@);
            lemma_lines_bytes_prefix(all, i + 1);
        }
        let ls = line.as_str();
        let b = ls.as_bytes().len();
        proof {
            assert(ls@ == line@);
            assert(b as int == vstd::utf8::encode_utf8(line@).len());
        }
        offset = offset + b as u64 + 1;
        match parse_line(line.as_str()) {
            Some(parsed) => {
                if !str_lt(parsed.ts.as_str(), cutoff) {
                    append_row(rows, last_key, &parsed, home, cleared);
                }
            },
            None => {},
        }
        i += 1;
    }
    proof {
        assert(all.take(lines@.len() as int) =~= all);
    }
    offset
}

/// What a poll of the log found: nothing (the file could not be opened or measured), or
/// the file's length together with the text from the resume point to its end (`None` when
/// that read failed or was not needed).
pub enum TailRead {
    Unavailable,
    Snapshot { len: u64, text: Option<String> },
}

/// Where tailing resumes: a file shorter than the last offset was truncated, so start over.
pub open spec fn tail_start(offset: u64, len: u64) -> u64 {
    if len < offset {
        0
    } else {
        offset
    }
}

/// The newline-terminated lines of `t`, without their newlines.
pub open spec fn complete_lines(t: Seq<char>) -> Seq<Seq<char>> {
    split_spec(t, '\n').drop_last()
}

/// The unterminated rest of `t` after its last newline.
pub open spec fn partial_line(t: Seq<char>) -> Seq<char> {
    split_spec(t, '\n').last()
}

/// The new offset, rows and open group after a poll (see `poll_tail`).
pub open spec fn poll_tail_spec(
    offset: u64,
    read: TailRead,
    rows: Seq<RowView>,
    last: Option<(Seq<char>, Seq<char>)>,
    home: Seq<char>,
    cleared: Set<Seq<char>>,
) -> (int, Seq<RowView>, Option<(Seq<char>, Seq<char>)>) {
    match read {
        TailRead::Unavailable => (offset as int, rows, last),
        TailRead::Snapshot { len, text } => {
            let start = tail_start(offset, len);
            let rows1 = if len < offset {
                Seq::<RowView>::empty()
            } else {
                rows
            };
            let last1 = if len < offset {
                None
            } else {
                last
            };
            if len <= start {
                (start as int, rows1, last1)
            } else {
                match text {
                    None => (start as int, rows1, last1),
                    Some(t) => {
                        let f = fold_rows(complete_lines(t@), None, (rows1, last1), home, cleared);
                        (start + lines_bytes(complete_lines(t@)), f.0, f.1)
                    },
                }
            }
        },
    }
}

/// Whether the new offset of a poll fits in a `u64`.
pub open spec fn poll_fits(offset: u64, read: TailRead) -> bool {
    match read {
        TailRead::Snapshot { len, text: Some(t) } => tail_start(offset, len)
            + vstd::utf8::encode_utf8(t@).len() <= u64::MAX,
        _ => true,
    }
}

/// The offset a poll reads from, given the file's current length.
pub fn read_start(offset: u64, len: u64) -> (r: u64)
    ensures
        r == tail_start(offset, len),
{
    if len < offset {
        0
    } else {
        offset
    }
}

/// The UTF-8 encoding of a concatenation is the concatenation of the encodings.
pub proof fn lemma_encode_utf8_concat(a: Seq<char>, b: Seq<char>)
    ensures
        vstd::utf8::encode_utf8(a + b) == vstd::utf8::encode_utf8(a) + vstd::utf8::encode_utf8(b),
    decreases a.len(),
{
    if a.len() == 0 {
        assert(a + b =~= b);
        assert(Seq::<u8>::empty() + vstd::utf8::encode_utf8(b) =~= vstd::utf8::encode_utf8(b));
    } else {
        assert((a + b).drop_first() =~= a.drop_first() + b);
        lemma_encode_utf8_concat(a.drop_first(), b);
        assert((a + b)[0] == a[0]);
        assert(vstd::utf8::encode_utf8(a + b) =~= vstd::utf8::encode_utf8(a)
            + vstd::utf8::encode_utf8(b));
    }
}

/// Bytes of the pieces of a split, with one byte per delimiter between them.
pub open spec fn pieces_bytes(p: Seq<Seq<char>>) -> int
    decreases p.len(),
{
    if p.len() <= 1 {
        if p.len() == 1 {
            vstd::utf8::encode_utf8(p[0]).len() as int
        } else {
            0
        }
    } else {
        vstd::utf8::encode_utf8(p[0]).len() + 1 + pieces_bytes(p.drop_first())
    }
}

/// Splitting at a one-byte character keeps every byte: pieces plus delimiters.
pub proof fn lemma_pieces_bytes_split(t: Seq<char>)
    ensures
        pieces_bytes(split_spec(t, '\n')) == vstd::utf8::encode_utf8(t).len(),
    decreases t.len(),
{
    lemma_split_nonempty(t, '\n');
    if t.len() > 0 {
        let q = split_spec(t.drop_first(), '\n');
        lemma_split_nonempty(t.drop_first(), '\n');
        lemma_pieces_bytes_split(t.drop_first());
        assert(vstd::utf8::encode_utf8(t) == vstd::utf8::encode_scalar(t[0] as u32)
            + vstd::utf8::encode_utf8(t.drop_first()));
        if t[0] == '\n' {
            assert(vstd::utf8::encode_scalar('\n' as u32).len() == 1);
            let p = seq![Seq::<char>::empty()] + q;
            assert(p.drop_first() =~= q);
            assert(vstd::utf8::encode_utf8(Seq::<char>::empty()).len() == 0);
        } else {
            let p = q.update(0, seq![t[0]] + q[0]);
            lemma_encode_utf8_concat(seq![t[0]], q[0]);
            assert(seq![t[0]].drop_first() =~= Seq::<char>::empty());
            assert(seq![t[0]][0] == t[0]);
            assert(vstd::utf8::encode_utf8(Seq::<char>::empty()) =~= Seq::<u8>::empty());
            assert(vstd::utf8::encode_utf8(seq![t[0]]) == vstd::utf8::encode_scalar(t[0] as u32)
                + vstd::utf8::encode_utf8(seq![t[0]].drop_first()));
            assert(vstd::utf8::encode_utf8(seq![t[0]]) =~= vstd::utf8::encode_scalar(
                t[0] as u32,
            ));
            if q.len() > 1 {
                assert(p.drop_first() =~= q.drop_first());
            }
        }
    }
}

/// The pieces' bytes are the complete lines' bytes plus the last piece's.
pub proof fn lemma_pieces_lines(p: Seq<Seq<char>>)
    requires
        p.len() >= 1,
    ensures
        pieces_bytes(p) == lines_bytes(p.drop_last()) + vstd::utf8::encode_utf8(p.last()).len(),
    decreases p.len(),
{
    if p.len() == 1 {
        assert(p.drop_last() =~= Seq::<Seq<char>>::empty());
    } else {
        lemma_pieces_lines(p.drop_first());
        lemma_lines_bytes_prepend(p[0], p.drop_first().drop_last());
        assert(seq![p[0]] + p.drop_first().drop_last() =~= p.drop_last());
        assert(p.drop_first().last() == p.last());
    }
}

/// Bytes of lines with one more in front.
pub proof fn lemma_lines_bytes_prepend(x: Seq<char>, l: Seq<Seq<char>>)
    ensures
        lines_bytes(seq![x] + l) == vstd::utf8::encode_utf8(x).len() + 1 + lines_bytes(l),
    decreases l.len(),
{
    if l.len() == 0 {
        assert(seq![x] + l =~= seq![x]);
        assert(seq![x].drop_last() =~= Seq::<Seq<char>>::empty());
        assert(seq![x].last() == x);
        assert(lines_bytes(Seq::<Seq<char>>::empty()) == 0);
        assert(lines_bytes(seq![x]) == lines_bytes(seq![x].drop_last()) + vstd::utf8::encode_utf8(x).len() + 1);
    } else {
        assert((seq![x] + l).drop_last() =~= seq![x] + l.drop_last());
        assert((seq![x] + l).last() == l.last());
        lemma_lines_bytes_prepend(x, l.drop_last());
    }
}

/// A poll leaves unread only the unterminated rest after the last newline: the complete
/// lines (each with its newline) and that rest together take every byte that was read.
pub proof fn law_poll_leaves_only_the_partial_line(t: Seq<char>)
    ensures
        lines_bytes(complete_lines(t)) + vstd::utf8::encode_utf8(partial_line(t)).len()
            == vstd::utf8::encode_utf8(t).len(),
{
    lemma_split_nonempty(t, '\n');
    lemma_pieces_bytes_split(t);
    lemma_pieces_lines(split_spec(t, '\n'));
}

/// Reads what was appended to the log since `offset` and returns the new offset. Only
/// complete (newline-terminated) lines are consumed; a partial trailing line is left for
/// the next poll. A file shorter than `offset` was truncated: the rows and the open group
/// are dropped and reading restarts from the top.
pub fn poll_tail(
    offset: u64,
    read: &TailRead,
    rows: &mut Vec<Row>,
    last_key: &mut Option<(String, String)>,
    home: &str,
    cleared: &MarkSet,
) -> (r: u64)
    requires
        poll_fits(offset, *read),
    ensures
        (r as int, rows_view(final(rows)@), group_view(*final(last_key))) == poll_tail_spec(
            offset,
            *read,
            rows_view(old(rows)@),
            group_view(*old(last_key)),
            home@,
            cleared@,
        ),
{
    let (len, text) = match read {
        TailRead::Unavailable => return offset,
        TailRead::Snapshot { len, text } => (*len, text),
    };
    let start = if len < offset {
        rows.clear();
        *last_key = None;
        proof {
            assert(rows_view(rows@) =~= Seq::<RowView>::empty());
        }
        0
    } else {
        offset
    };
    if len <= start {
        return start;
    }
    let t = match text {
        None => return start,
        Some(t) => t,
    };
    let chars = str_chars(t.as_str());
    let pieces = split_chars(chars.as_slice(), '\n');
    let ghost p = split_spec(t@, '\n');
    let ghost lines = complete_lines(t@);
    let ghost begin = (rows_view(rows@), group_view(*last_key));
    proof {
        lemma_split_nonempty(t@, '\n');
        law_poll_leaves_only_the_partial_line(t@);
    }
    let n = pieces.len() - 1;
    let mut consumed: u64 = 0;
    let mut k: usize = 0;
    proof {
        assert(lines.take(0) =~= Seq::<Seq<char>>::empty());
    }
    while k < n
        invariant
            n + 1 == pieces@.len(),
            pieces@.len() == p.len(),
            forall|j: int| 0 <= j < pieces@.len() ==> #[trigger] pieces@[j]@ == p[j],
            lines == p.drop_last(),
            k <= n,
            start + lines_bytes(lines) <= u64::MAX,
            consumed == lines_bytes(lines.take(k as int)),
            (rows_view(rows@), group_view(*last_key)) == fold_rows(
                lines.take(k as int),
                None,
                begin,
                home@,
                cleared@,
            ),
        decreases n - k,
    {
        let line = string_of(pieces[k].as_slice(), 0, pieces[k].len());
        proof {
            assert(pieces@[k as int]@.subrange(0, pieces@[k as int]@.len() as int) =~= pieces@[
                k as int
            ]@);
            assert(lines.take(k + 1).drop_last() =~= lines.take(k as int));
            assert(lines.take(k + 1).last() == line@);
            lemma_lines_bytes_prefix(lines, k + 1);
        }
        let ls = line.as_str();
        let b = ls.as_bytes().len();
        proof {
            assert(ls@ == line@);
            assert(b as int == vstd::utf8::encode_utf8(line@).len());
        }
        consumed = consumed + b as u64 + 1;
        match parse_line(line.as_str()) {
            Some(parsed) => append_row(rows, last_key, &parsed, home, cleared),
            None => {},
        }
        k += 1;
    }
    proof {
        assert(lines.take(n as int) =~= lines);
    }
    start + consumed
}


/// A copy of `r`.
pub(crate) fn copy_row(r: &Row) -> (c: Row)
    ensures
        c@ == r@,
{
    match r {
        Row::Blank => Row::Blank,
        Row::GroupHeader { ts, repo } => Row::GroupHeader { ts: ts.clone(), repo: repo.clone() },
        Row::FileItem { label, abspath, warn, key } => Row::FileItem {
            label: label.clone(),
            abspath: clone_opt(abspath),
            warn: clone_opt(warn),
            key: key.clone(),
        },
        Row::CommandItem { command, step, warn, key } => Row::CommandItem {
            command: command.clone(),
            step: clone_opt(step),
            warn: clone_opt(warn),
            key: key.clone(),
        },
    }
}

} // verus!
