//! Properties of the log format and of the panel's row handling that hold for every input.
use vstd::prelude::*;

use crate::app::{
    clamp, clear_keys, cursor_slot, drop_cleared, header_empty, is_cleared_row, is_header,
    item_indices, keys_cleared_at, kept_by_prune, lemma_item_indices, max_scroll, prune_spec,
    prune_upto, run_keys, shows_no_cleared, visible_scroll, App,
};
use crate::input::{within_spec, Input, PanelAreas};
use crate::render::{row_line_spec, Style};
use crate::log::{
    append_row_spec, complete_lines, extract_field_spec, extract_rest_spec, field_value,
    fold_rows, is_item, item_key_spec, key_cwd, key_item, key_kind, key_of, key_repo,
    key_session, key_step, key_warn, marker, parse_line_spec, passes_cutoff, poll_tail_spec,
    row_for, ts_shape_ok, v1_rest, v1_time, word_command, LineView, RowView, TailRead,
};
use crate::text::{
    find_spec, lemma_find_bounds, lemma_split_concat, lemma_split_nonempty, lemma_split_once_at,
    lemma_split_once_parts, lemma_split_pieces_within, lemma_split_without_delimiter,
    lemma_tsv_escape_has_no_raw_delimiters, lemma_unescape_inverts_tsv_escape, split_once_spec,
    split_spec, tsv_escape,
};

verus! {

// ---------------------------------------------------------------------------------------
// Writing and reading back a v2 record
// ---------------------------------------------------------------------------------------

/// One `key=value` field.
pub open spec fn kv_text(kv: (Seq<char>, Seq<char>)) -> Seq<char> {
    kv.0 + seq!['='] + kv.1
}

/// The fields, each after a tab.
pub open spec fn fields_text(kvs: Seq<(Seq<char>, Seq<char>)>) -> Seq<char>
    decreases kvs.len(),
{
    if kvs.len() == 0 {
        Seq::<char>::empty()
    } else {
        fields_text(kvs.drop_last()) + seq!['\t'] + kv_text(kvs.last())
    }
}

/// The value of the last pair whose key is `key`.
pub open spec fn last_value(kvs: Seq<(Seq<char>, Seq<char>)>, key: Seq<char>) -> Option<
    Seq<char>,
>
    decreases kvs.len(),
{
    if kvs.len() == 0 {
        None
    } else if kvs.last().0 == key {
        Some(kvs.last().1)
    } else {
        last_value(kvs.drop_last(), key)
    }
}

/// The `kind=` value of a review.
pub open spec fn word_review() -> Seq<char> {
    seq!['r', 'e', 'v', 'i', 'e', 'w']
}

/// The fields the hook writes for one item, values escaped as jq's `@tsv` does.
pub open spec fn v2_fields(
    session: Seq<char>,
    repo: Seq<char>,
    cwd: Seq<char>,
    is_command: bool,
    step: Option<Seq<char>>,
    warn: Option<Seq<char>>,
    item: Seq<char>,
) -> Seq<(Seq<char>, Seq<char>)> {
    seq![
        (key_session(), session),
        (key_repo(), tsv_escape(repo)),
        (key_cwd(), tsv_escape(cwd)),
        (key_kind(), if is_command {
            word_command()
        } else {
            word_review()
        }),
    ] + (match step {
        Some(s) => seq![(key_step(), tsv_escape(s))],
        None => Seq::<(Seq<char>, Seq<char>)>::empty(),
    }) + (match warn {
        Some(w) => seq![(key_warn(), w)],
        None => Seq::<(Seq<char>, Seq<char>)>::empty(),
    }) + seq![(key_item(), tsv_escape(item))]
}

/// The v2 line the hook writes for one item.
pub open spec fn v2_line(
    ts: Seq<char>,
    session: Seq<char>,
    repo: Seq<char>,
    cwd: Seq<char>,
    is_command: bool,
    step: Option<Seq<char>>,
    warn: Option<Seq<char>>,
    item: Seq<char>,
) -> Seq<char> {
    ts + fields_text(v2_fields(session, repo, cwd, is_command, step, warn, item))
}

proof fn lemma_no_char_concat(a: Seq<char>, b: Seq<char>, c: char)
    requires
        !a.contains(c),
        !b.contains(c),
    ensures
        !(a + b).contains(c),
{
    if (a + b).contains(c) {
        let j = choose|j: int| 0 <= j < (a + b).len() && (a + b)[j] == c;
        if j < a.len() {
            assert(a[j] == c);
        } else {
            assert(b[j - a.len()] == c);
        }
    }
}

/// Without tabs in the timestamp and the fields, splitting at tabs gives the timestamp and
/// then each field.
proof fn lemma_split_fields(ts: Seq<char>, kvs: Seq<(Seq<char>, Seq<char>)>)
    requires
        !ts.contains('\t'),
        forall|k: int| 0 <= k < kvs.len() ==> !(#[trigger] kv_text(kvs[k])).contains('\t'),
    ensures
        split_spec(ts + fields_text(kvs), '\t') == seq![ts] + kvs.map_values(
            |kv: (Seq<char>, Seq<char>)| kv_text(kv),
        ),
    decreases kvs.len(),
{
    if kvs.len() == 0 {
        assert(ts + fields_text(kvs) =~= ts);
        lemma_split_without_delimiter(ts, '\t');
        assert(seq![ts] + kvs.map_values(|kv: (Seq<char>, Seq<char>)| kv_text(kv)) =~= seq![ts]);
    } else {
        let d = kvs.drop_last();
        assert forall|k: int| 0 <= k < d.len() implies !(#[trigger] kv_text(d[k])).contains('\t') by {
            assert(d[k] == kvs[k]);
        }
        lemma_split_fields(ts, d);
        let last = kv_text(kvs.last());
        assert(!last.contains('\t')) by {
            assert(kvs.last() == kvs[kvs.len() - 1]);
        }
        assert(ts + fields_text(kvs) =~= (ts + fields_text(d)) + seq!['\t'] + last);
        lemma_split_concat(ts + fields_text(d), '\t', last);
        lemma_split_without_delimiter(last, '\t');
        assert(kvs.map_values(|kv: (Seq<char>, Seq<char>)| kv_text(kv)) =~= d.map_values(
            |kv: (Seq<char>, Seq<char>)| kv_text(kv),
        ).push(last));
        assert(seq![ts] + kvs.map_values(|kv: (Seq<char>, Seq<char>)| kv_text(kv)) =~= (seq![ts]
            + d.map_values(|kv: (Seq<char>, Seq<char>)| kv_text(kv))) + seq![last]);
    }
}

/// With no `=` in the keys, looking a key up among the field texts finds its last value.
proof fn lemma_field_lookup(kvs: Seq<(Seq<char>, Seq<char>)>, key: Seq<char>)
    requires
        forall|k: int| 0 <= k < kvs.len() ==> !(#[trigger] kvs[k]).0.contains('='),
    ensures
        field_value(kvs.map_values(|kv: (Seq<char>, Seq<char>)| kv_text(kv)), key) == last_value(
            kvs,
            key,
        ),
    decreases kvs.len(),
{
    if kvs.len() > 0 {
        let d = kvs.drop_last();
        let m = kvs.map_values(|kv: (Seq<char>, Seq<char>)| kv_text(kv));
        assert forall|k: int| 0 <= k < d.len() implies !(#[trigger] d[k]).0.contains('=') by {
            assert(d[k] == kvs[k]);
        }
        lemma_field_lookup(d, key);
        assert(m.drop_last() =~= d.map_values(|kv: (Seq<char>, Seq<char>)| kv_text(kv)));
        let kv = kvs.last();
        assert(!kv.0.contains('=')) by {
            assert(kv == kvs[kvs.len() - 1]);
        }
        let t = kv_text(kv);
        assert(m.last() == t);
        assert forall|j: int| 0 <= j < kv.0.len() implies t[j] != '=' by {
            assert(t[j] == kv.0[j]);
            assert(kv.0.contains(kv.0[j]));
        }
        lemma_split_once_at(t, '=', kv.0.len() as int);
        assert(t.take(kv.0.len() as int) =~= kv.0);
        assert(t.skip(kv.0.len() as int + 1) =~= kv.1);
    }
}

/// The last pair with a key is the one at `i` when no later pair has that key.
proof fn lemma_last_value_at(kvs: Seq<(Seq<char>, Seq<char>)>, key: Seq<char>, i: int)
    requires
        0 <= i < kvs.len(),
        kvs[i].0 == key,
        forall|j: int| i < j < kvs.len() ==> (#[trigger] kvs[j]).0 != key,
    ensures
        last_value(kvs, key) == Some(kvs[i].1),
    decreases kvs.len(),
{
    if i < kvs.len() - 1 {
        assert(kvs.last() == kvs[kvs.len() - 1]);
        let d = kvs.drop_last();
        assert forall|j: int| i < j < d.len() implies (#[trigger] d[j]).0 != key by {
            assert(d[j] == kvs[j]);
        }
        lemma_last_value_at(d, key, i);
    }
}

/// No pair with the key: nothing found.
proof fn lemma_last_value_none(kvs: Seq<(Seq<char>, Seq<char>)>, key: Seq<char>)
    requires
        forall|j: int| 0 <= j < kvs.len() ==> (#[trigger] kvs[j]).0 != key,
    ensures
        last_value(kvs, key) is None,
    decreases kvs.len(),
{
    if kvs.len() > 0 {
        assert(kvs.last() == kvs[kvs.len() - 1]);
        let d = kvs.drop_last();
        assert forall|j: int| 0 <= j < d.len() implies (#[trigger] d[j]).0 != key by {
            assert(d[j] == kvs[j]);
        }
        lemma_last_value_none(d, key);
    }
}

/// What a read gives back of a write: a record the hook writes in the v2 format - values
/// escaped as jq's `@tsv` does - parses back to exactly the values written, whatever
/// characters they hold (spaces, tabs, newlines, backslashes, `=`, or text such as
/// `kind=command`), with the escaped item kept as the raw item. The timestamp, session and
/// warning, which are written unescaped, must hold no tab.
pub proof fn law_v2_record_round_trip(
    ts: Seq<char>,
    session: Seq<char>,
    repo: Seq<char>,
    cwd: Seq<char>,
    is_command: bool,
    step: Option<Seq<char>>,
    warn: Option<Seq<char>>,
    item: Seq<char>,
)
    requires
        ts_shape_ok(ts),
        !ts.contains('\t'),
        !session.contains('\t'),
        warn matches Some(w) ==> !w.contains('\t'),
    ensures
        parse_line_spec(v2_line(ts, session, repo, cwd, is_command, step, warn, item)) == Some(
            LineView {
                ts,
                session,
                repo,
                cwd: Some(cwd),
                is_command,
                step,
                warn,
                item,
                raw_item: tsv_escape(item),
            },
        ),
{
    let kvs = v2_fields(session, repo, cwd, is_command, step, warn, item);
    let line = v2_line(ts, session, repo, cwd, is_command, step, warn, item);
    let n = kvs.len();
    let ns: int = if step is Some {
        1
    } else {
        0
    };
    let nw: int = if warn is Some {
        1
    } else {
        0
    };
    assert(n == 5 + ns + nw);
    lemma_tsv_escape_has_no_raw_delimiters(repo);
    lemma_tsv_escape_has_no_raw_delimiters(cwd);
    lemma_tsv_escape_has_no_raw_delimiters(item);
    if let Some(s) = step {
        lemma_tsv_escape_has_no_raw_delimiters(s);
    }
    // The pairs, by position.
    assert(kvs[0] == (key_session(), session));
    assert(kvs[1] == (key_repo(), tsv_escape(repo)));
    assert(kvs[2] == (key_cwd(), tsv_escape(cwd)));
    assert(kvs[3].0 == key_kind());
    if let Some(s) = step {
        assert(kvs[4] == (key_step(), tsv_escape(s)));
    }
    if let Some(w) = warn {
        assert(kvs[4 + ns] == (key_warn(), w));
    }
    assert(kvs[n - 1] == (key_item(), tsv_escape(item)));
    assert forall|k: int| 0 <= k < n implies (#[trigger] kvs[k]).0 == key_session() || kvs[k].0
        == key_repo() || kvs[k].0 == key_cwd() || kvs[k].0 == key_kind() || kvs[k].0
        == key_step() || kvs[k].0 == key_warn() || kvs[k].0 == key_item() by {
        if k == 4 && step is Some {
        } else if k == 4 + ns && warn is Some {
        } else {
        }
    }
    // No key holds '=' or a tab; no value holds a tab.
    assert forall|k: int| 0 <= k < n implies !(#[trigger] kvs[k]).0.contains('=') && !kvs[k].0.contains(
        '\t',
    ) && !kvs[k].1.contains('\t') by {
        let key = kvs[k].0;
        assert(key.len() <= 7);
        assert forall|j: int| 0 <= j < key.len() implies key[j] != '=' && key[j] != '\t' by {}
        if k == 3 {
            assert(kvs[3].1 == word_command() || kvs[3].1 == word_review());
            assert forall|j: int| 0 <= j < kvs[3].1.len() implies kvs[3].1[j] != '\t' by {}
        }
    }
    assert forall|k: int| 0 <= k < n implies !(#[trigger] kv_text(kvs[k])).contains('\t') by {
        assert(!kvs[k].0.contains('\t') && !kvs[k].1.contains('\t'));
        assert(!seq!['='].contains('\t')) by {
            assert(seq!['='][0] == '=');
        }
        lemma_no_char_concat(kvs[k].0, seq!['='], '\t');
        lemma_no_char_concat(kvs[k].0 + seq!['='], kvs[k].1, '\t');
    }
    lemma_split_fields(ts, kvs);
    let fields = split_spec(line, '\t');
    let rest = fields.drop_first();
    assert(fields[0] == ts);
    assert(rest =~= kvs.map_values(|kv: (Seq<char>, Seq<char>)| kv_text(kv)));
    // The line is a v2 line.
    assert(line.contains('\t')) by {
        assert(line[ts.len() as int] == '\t') by {
            let d = kvs.drop_last();
            assert(fields_text(kvs) == fields_text(d) + seq!['\t'] + kv_text(kvs.last()));
            if d.len() == 0 {
                assert(fields_text(d) =~= Seq::<char>::empty());
            } else {
                lemma_fields_text_starts_with_tab(d);
            }
        }
    }
    // Each key's value.
    assert(key_session() != key_repo()) by {
        assert(key_session().len() != key_repo().len());
    }
    assert(key_session() != key_cwd()) by {
        assert(key_session().len() != key_cwd().len());
    }
    assert(key_session() != key_kind()) by {
        assert(key_session().len() != key_kind().len());
    }
    assert(key_session() != key_step()) by {
        assert(key_session().len() != key_step().len());
    }
    assert(key_session() != key_warn()) by {
        assert(key_session().len() != key_warn().len());
    }
    assert(key_session() != key_item()) by {
        assert(key_session().len() != key_item().len());
    }
    assert(key_repo() != key_cwd()) by {
        assert(key_repo().len() != key_cwd().len());
    }
    assert(key_repo() != key_kind()) by {
        assert(key_repo()[0] != key_kind()[0]);
    }
    assert(key_repo() != key_step()) by {
        assert(key_repo()[0] != key_step()[0]);
    }
    assert(key_repo() != key_warn()) by {
        assert(key_repo()[0] != key_warn()[0]);
    }
    assert(key_repo() != key_item()) by {
        assert(key_repo()[0] != key_item()[0]);
    }
    assert(key_cwd() != key_kind()) by {
        assert(key_cwd().len() != key_kind().len());
    }
    assert(key_cwd() != key_step()) by {
        assert(key_cwd().len() != key_step().len());
    }
    assert(key_cwd() != key_warn()) by {
        assert(key_cwd().len() != key_warn().len());
    }
    assert(key_cwd() != key_item()) by {
        assert(key_cwd().len() != key_item().len());
    }
    assert(key_kind() != key_step()) by {
        assert(key_kind()[0] != key_step()[0]);
    }
    assert(key_kind() != key_warn()) by {
        assert(key_kind()[0] != key_warn()[0]);
    }
    assert(key_kind() != key_item()) by {
        assert(key_kind()[0] != key_item()[0]);
    }
    assert(key_step() != key_warn()) by {
        assert(key_step()[0] != key_warn()[0]);
    }
    assert(key_step() != key_item()) by {
        assert(key_step()[0] != key_item()[0]);
    }
    assert(key_warn() != key_item()) by {
        assert(key_warn()[0] != key_item()[0]);
    }
    assert(word_review() != word_command()) by {
        assert(word_review().len() != word_command().len());
    }
    lemma_field_lookup(kvs, key_session());
    lemma_field_lookup(kvs, key_repo());
    lemma_field_lookup(kvs, key_cwd());
    lemma_field_lookup(kvs, key_kind());
    lemma_field_lookup(kvs, key_step());
    lemma_field_lookup(kvs, key_warn());
    lemma_field_lookup(kvs, key_item());
    lemma_last_value_at(kvs, key_session(), 0);
    lemma_last_value_at(kvs, key_repo(), 1);
    lemma_last_value_at(kvs, key_cwd(), 2);
    lemma_last_value_at(kvs, key_kind(), 3);
    lemma_last_value_at(kvs, key_item(), n - 1);
    match step {
        Some(s) => lemma_last_value_at(kvs, key_step(), 4),
        None => lemma_last_value_none(kvs, key_step()),
    }
    match warn {
        Some(w) => lemma_last_value_at(kvs, key_warn(), 4 + ns),
        None => lemma_last_value_none(kvs, key_warn()),
    }
    lemma_unescape_inverts_tsv_escape(repo);
    lemma_unescape_inverts_tsv_escape(cwd);
    lemma_unescape_inverts_tsv_escape(item);
    if let Some(s) = step {
        lemma_unescape_inverts_tsv_escape(s);
    }
}

proof fn lemma_fields_text_starts_with_tab(kvs: Seq<(Seq<char>, Seq<char>)>)
    requires
        kvs.len() > 0,
    ensures
        fields_text(kvs).len() > 0,
        fields_text(kvs)[0] == '\t',
    decreases kvs.len(),
{
    let d = kvs.drop_last();
    if d.len() == 0 {
        assert(fields_text(d) =~= Seq::<char>::empty());
    } else {
        lemma_fields_text_starts_with_tab(d);
    }
}


// ---------------------------------------------------------------------------------------
// Mark keys stay on one line
// ---------------------------------------------------------------------------------------

proof fn lemma_no_char_take(s: Seq<char>, i: int, c: char)
    requires
        !s.contains(c),
        0 <= i <= s.len(),
    ensures
        !s.take(i).contains(c),
{
    if s.take(i).contains(c) {
        let j = choose|j: int| 0 <= j < s.take(i).len() && s.take(i)[j] == c;
        assert(s[j] == c);
    }
}

proof fn lemma_no_char_skip(s: Seq<char>, i: int, c: char)
    requires
        !s.contains(c),
        0 <= i <= s.len(),
    ensures
        !s.skip(i).contains(c),
{
    if s.skip(i).contains(c) {
        let j = choose|j: int| 0 <= j < s.skip(i).len() && s.skip(i)[j] == c;
        assert(s[i + j] == c);
    }
}

proof fn lemma_split_once_no_char(s: Seq<char>, d: char, c: char)
    requires
        !s.contains(c),
    ensures
        split_once_spec(s, d) matches Some(kv) ==> !kv.0.contains(c) && !kv.1.contains(c),
{
    lemma_split_once_parts(s, d);
    if let Some(kv) = split_once_spec(s, d) {
        let i = choose|i: int| 0 <= i < s.len() && kv.0 == s.take(i) && kv.1 == s.skip(i + 1);
        lemma_no_char_take(s, i, c);
        lemma_no_char_skip(s, i + 1, c);
    }
}

proof fn lemma_field_value_no_char(fields: Seq<Seq<char>>, key: Seq<char>, c: char)
    requires
        forall|k: int| 0 <= k < fields.len() ==> !(#[trigger] fields[k]).contains(c),
    ensures
        field_value(fields, key) matches Some(v) ==> !v.contains(c),
    decreases fields.len(),
{
    if fields.len() > 0 {
        assert(fields.last() == fields[fields.len() - 1]);
        lemma_split_once_no_char(fields.last(), '=', c);
        let d = fields.drop_last();
        assert forall|k: int| 0 <= k < d.len() implies !(#[trigger] d[k]).contains(c) by {
            assert(d[k] == fields[k]);
        }
        lemma_field_value_no_char(d, key, c);
    }
}

proof fn lemma_extract_no_char(s: Seq<char>, key: Seq<char>, c: char)
    requires
        !s.contains(c),
        key.len() > 0,
    ensures
        extract_field_spec(s, key) matches Some(v) ==> !v.contains(c),
        extract_rest_spec(s, key) matches Some(v) ==> !v.contains(c),
{
    lemma_find_bounds(s, key);
    let i = find_spec(s, key);
    if i >= 0 {
        let after = s.skip(i + key.len());
        lemma_no_char_skip(s, i + key.len(), c);
        lemma_split_once_no_char(after, ' ', c);
    }
}

/// A mark key never spans lines: whenever a log line without a newline parses (and the
/// poller only ever hands over such lines), the key `ts|session|raw_item` of its record
/// holds no newline - even for a multiline command, whose raw item keeps its escapes.
pub proof fn law_mark_key_is_one_line(line: Seq<char>)
    requires
        !line.contains('\n'),
        parse_line_spec(line) is Some,
    ensures
        !item_key_spec(parse_line_spec(line).unwrap()).contains('\n'),
{
    let p = parse_line_spec(line).unwrap();
    let bar = seq!['|'];
    assert(!bar.contains('\n')) by {
        assert(bar[0] == '|');
    }
    if line.contains('\t') {
        let fields = split_spec(line, '\t');
        lemma_split_nonempty(line, '\t');
        lemma_split_pieces_within(line, '\t', '\n');
        let rest = fields.drop_first();
        assert forall|k: int| 0 <= k < rest.len() implies !(#[trigger] rest[k]).contains('\n') by {
            assert(rest[k] == fields[k + 1]);
        }
        lemma_field_value_no_char(rest, key_session(), '\n');
        lemma_field_value_no_char(rest, key_item(), '\n');
        assert(!p.ts.contains('\n'));
        assert(!p.session.contains('\n')) by {
            if p.session.len() > 0 {
            }
        }
        assert(!p.raw_item.contains('\n'));
    } else {
        lemma_split_once_no_char(line, ' ', '\n');
        let p1 = split_once_spec(line, ' ').unwrap();
        lemma_split_once_no_char(p1.1, ' ', '\n');
        let rest = v1_rest(p1.1);
        let time = v1_time(p1.1);
        assert(!rest.contains('\n')) by {
            if rest.len() > 0 {
            }
        }
        assert(!time.contains('\n'));
        lemma_extract_no_char(rest, marker(key_session()), '\n');
        lemma_extract_no_char(rest, marker(key_item()), '\n');
        let sp = seq![' '];
        assert(!sp.contains('\n')) by {
            assert(sp[0] == ' ');
        }
        lemma_no_char_concat(p1.0, sp, '\n');
        lemma_no_char_concat(p1.0 + sp, time, '\n');
        assert(!p.ts.contains('\n'));
        assert(!p.session.contains('\n')) by {
            if p.session.len() > 0 {
            }
        }
        assert(!p.raw_item.contains('\n'));
    }
    lemma_no_char_concat(p.ts, bar, '\n');
    lemma_no_char_concat(p.ts + bar, p.session, '\n');
    lemma_no_char_concat(p.ts + bar + p.session, bar, '\n');
    lemma_no_char_concat(p.ts + bar + p.session + bar, p.raw_item, '\n');
}

/// The lines a poll hands to the parser never hold a newline.
pub proof fn law_complete_lines_have_no_newline(t: Seq<char>)
    ensures
        forall|k: int|
            0 <= k < complete_lines(t).len() ==> !(#[trigger] complete_lines(t)[k]).contains(
                '\n',
            ),
{
    lemma_split_nonempty(t, '\n');
    lemma_split_pieces_lack(t, '\n');
    assert forall|k: int| 0 <= k < complete_lines(t).len() implies !(
    #[trigger] complete_lines(t)[k]).contains('\n') by {
        assert(complete_lines(t)[k] == split_spec(t, '\n')[k]);
    }
}

proof fn lemma_split_pieces_lack(s: Seq<char>, d: char)
    ensures
        forall|k: int| 0 <= k < split_spec(s, d).len() ==> !(#[trigger] split_spec(s, d)[k]).contains(d),
    decreases s.len(),
{
    if s.len() > 0 {
        lemma_split_pieces_lack(s.drop_first(), d);
        lemma_split_nonempty(s.drop_first(), d);
        let r = split_spec(s.drop_first(), d);
        assert forall|k: int| 0 <= k < split_spec(s, d).len() implies !(
        #[trigger] split_spec(s, d)[k]).contains(d) by {
            if s[0] == d {
                if k > 0 {
                    assert(split_spec(s, d)[k] == r[k - 1]);
                } else {
                    assert(split_spec(s, d)[0] =~= Seq::<char>::empty());
                }
            } else if k == 0 {
                let q = seq![s[0]] + r[0];
                assert(split_spec(s, d)[0] == q);
                if q.contains(d) {
                    let j = choose|j: int| 0 <= j < q.len() && q[j] == d;
                    if j > 0 {
                        assert(r[0][j - 1] == d);
                        assert(r[0].contains(d));
                    }
                }
            } else {
                assert(split_spec(s, d)[k] == r[k]);
            }
        }
    }
}


// ---------------------------------------------------------------------------------------
// Rows
// ---------------------------------------------------------------------------------------

/// The item rows of a list, in order.
pub open spec fn items_of(rows: Seq<RowView>) -> Seq<RowView>
    decreases rows.len(),
{
    if rows.len() == 0 {
        Seq::<RowView>::empty()
    } else if is_item(rows.last()) {
        items_of(rows.drop_last()).push(rows.last())
    } else {
        items_of(rows.drop_last())
    }
}

proof fn lemma_items_of_push(rows: Seq<RowView>, r: RowView)
    ensures
        items_of(rows.push(r)) == if is_item(r) {
            items_of(rows).push(r)
        } else {
            items_of(rows)
        },
{
    assert(rows.push(r).drop_last() =~= rows);
}

proof fn lemma_prune_upto_items(rows: Seq<RowView>, k: int)
    requires
        0 <= k <= rows.len(),
    ensures
        items_of(prune_upto(rows, k)) == items_of(rows.take(k)),
    decreases k,
{
    if k == 0 {
        assert(rows.take(0) =~= Seq::<RowView>::empty());
    } else {
        lemma_prune_upto_items(rows, k - 1);
        assert(rows.take(k) =~= rows.take(k - 1).push(rows[k - 1]));
        lemma_items_of_push(rows.take(k - 1), rows[k - 1]);
        if kept_by_prune(rows, k - 1) {
            assert(prune_upto(rows, k) =~= prune_upto(rows, k - 1).push(rows[k - 1]));
            lemma_items_of_push(prune_upto(rows, k - 1), rows[k - 1]);
        } else {
            assert(prune_upto(rows, k) =~= prune_upto(rows, k - 1));
            assert(!is_item(rows[k - 1]));
        }
    }
}

/// Pruning drops only headers and blank lines: the items stay, all of them, in order.
pub proof fn law_prune_keeps_every_item(rows: Seq<RowView>)
    ensures
        items_of(prune_spec(rows)) == items_of(rows),
{
    lemma_prune_upto_items(rows, rows.len() as int);
    assert(rows.take(rows.len() as int) =~= rows);
}

proof fn lemma_prune_upto_headers(rows: Seq<RowView>, k: int)
    requires
        0 <= k <= rows.len(),
    ensures
        ({
            let r = prune_upto(rows, k);
            &&& forall|p: int|
                0 <= p < r.len() - 1 && is_header(#[trigger] r[p]) ==> is_item(r[p + 1])
            &&& r.len() > 0 && is_header(r.last()) ==> k < rows.len() && is_item(rows[k])
            &&& forall|p: int| 0 <= p < r.len() ==> rows.contains(#[trigger] r[p])
        }),
    decreases k,
{
    if k > 0 {
        lemma_prune_upto_headers(rows, k - 1);
        let q = prune_upto(rows, k - 1);
        let r = prune_upto(rows, k);
        if kept_by_prune(rows, k - 1) {
            assert(r =~= q.push(rows[k - 1]));
            assert forall|p: int| 0 <= p < r.len() - 1 && is_header(#[trigger] r[p]) implies is_item(
                r[p + 1],
            ) by {
                if p < q.len() - 1 {
                    assert(r[p] == q[p] && r[p + 1] == q[p + 1]);
                } else {
                    assert(r[p] == q.last());
                    assert(r[p + 1] == rows[k - 1]);
                }
            }
            assert forall|p: int| 0 <= p < r.len() implies rows.contains(#[trigger] r[p]) by {
                if p < q.len() {
                    assert(r[p] == q[p]);
                } else {
                    assert(r[p] == rows[k - 1]);
                }
            }
            if is_header(rows[k - 1]) {
                assert(!header_empty(rows, k - 1));
            }
        } else {
            assert(r =~= q);
            if q.len() > 0 && is_header(q.last()) {
                assert(is_item(rows[k - 1]));
                assert(!header_empty(rows, k - 1));
            }
        }
    } else {
        assert(prune_upto(rows, 0) =~= Seq::<RowView>::empty());
    }
}

/// After pruning, every group header has an item right under it - clearing a section,
/// one item at a time or all at once, never leaves an orphaned header - and every row
/// left was already there.
pub proof fn law_pruned_headers_have_items(rows: Seq<RowView>)
    ensures
        forall|p: int|
            0 <= p < prune_spec(rows).len() && is_header(#[trigger] prune_spec(rows)[p]) ==> p + 1
                < prune_spec(rows).len() && is_item(prune_spec(rows)[p + 1]),
        forall|p: int| 0 <= p < prune_spec(rows).len() ==> rows.contains(#[trigger] prune_spec(rows)[p]),
{
    lemma_prune_upto_headers(rows, rows.len() as int);
    let r = prune_spec(rows);
    assert forall|p: int| 0 <= p < r.len() && is_header(#[trigger] r[p]) implies p + 1 < r.len()
        && is_item(r[p + 1]) by {
        if p == r.len() - 1 {
            assert(r.last() == r[p]);
        }
    }
}

/// The rows without `k` hold no item keyed `k`, and nothing that was not there before.
pub proof fn lemma_drop_key(rows: Seq<RowView>, k: Seq<char>)
    ensures
        forall|i: int| 0 <= i < drop_key_len(rows, k) ==> key_of(#[trigger] crate::app::drop_key(rows, k)[i]) != Some(k),
        forall|i: int| 0 <= i < drop_key_len(rows, k) ==> rows.contains(#[trigger] crate::app::drop_key(rows, k)[i]),
    decreases rows.len(),
{
    if rows.len() > 0 {
        lemma_drop_key(rows.drop_last(), k);
        let p = crate::app::drop_key(rows.drop_last(), k);
        let r = crate::app::drop_key(rows, k);
        assert forall|i: int| 0 <= i < r.len() implies rows.contains(#[trigger] r[i]) by {
            if i < p.len() {
                assert(r[i] == p[i]);
                let j = choose|j: int| 0 <= j < rows.drop_last().len() && rows.drop_last()[j] == p[i];
                assert(rows[j] == p[i]);
            } else {
                assert(r[i] == rows.last());
                assert(rows[rows.len() - 1] == rows.last());
            }
        }
        assert forall|i: int| 0 <= i < r.len() implies key_of(#[trigger] r[i]) != Some(k) by {
            if i < p.len() {
                assert(r[i] == p[i]);
            }
        }
    }
}

pub open spec fn drop_key_len(rows: Seq<RowView>, k: Seq<char>) -> int {
    crate::app::drop_key(rows, k).len() as int
}

/// Clearing keys puts each of them in the cleared marks, takes every item carrying one of
/// them out of the rows, and adds no row.
pub proof fn law_cleared_keys_leave_the_rows(
    st: (Seq<RowView>, Set<Seq<char>>, Seq<crate::app::EffectView>),
    keys: Seq<Seq<char>>,
)
    ensures
        clear_keys(st, keys).1 == st.1.union(keys.to_set()),
        forall|i: int, j: int|
            0 <= i < clear_keys(st, keys).0.len() && 0 <= j < keys.len() ==> key_of(
                #[trigger] clear_keys(st, keys).0[i],
            ) != Some(#[trigger] keys[j]),
        forall|i: int|
            0 <= i < clear_keys(st, keys).0.len() ==> st.0.contains(
                #[trigger] clear_keys(st, keys).0[i],
            ),
    decreases keys.len(),
{
    if keys.len() == 0 {
        assert(keys.to_set() =~= Set::<Seq<char>>::empty());
        assert(st.1.union(keys.to_set()) =~= st.1);
    } else {
        let d = keys.drop_last();
        law_cleared_keys_leave_the_rows(st, d);
        let p = clear_keys(st, d);
        let k = keys.last();
        let r = clear_keys(st, keys);
        lemma_drop_key(p.0, k);
        assert(keys.to_set() =~= d.to_set().insert(k)) by {
            assert forall|x: Seq<char>| keys.to_set().contains(x) <==> d.to_set().insert(k).contains(
                x,
            ) by {
                if keys.contains(x) {
                    let j = choose|j: int| 0 <= j < keys.len() && keys[j] == x;
                    if j < keys.len() - 1 {
                        assert(d[j] == x);
                    }
                }
                if d.contains(x) {
                    let j = choose|j: int| 0 <= j < d.len() && d[j] == x;
                    assert(keys[j] == x);
                }
                if x == k {
                    assert(keys[keys.len() - 1] == x);
                }
            }
        }
        assert(r.1 =~= st.1.union(keys.to_set()));
        assert forall|i: int, j: int| 0 <= i < r.0.len() && 0 <= j < keys.len() implies key_of(
            #[trigger] r.0[i],
        ) != Some(#[trigger] keys[j]) by {
            assert(p.0.contains(r.0[i]));
            let m = choose|m: int| 0 <= m < p.0.len() && p.0[m] == r.0[i];
            if j < keys.len() - 1 {
                assert(keys[j] == d[j]);
                assert(key_of(p.0[m]) != Some(d[j]));
            } else {
                assert(keys[j] == k);
            }
        }
        assert forall|i: int| 0 <= i < r.0.len() implies st.0.contains(#[trigger] r.0[i]) by {
            assert(p.0.contains(r.0[i]));
            let m = choose|m: int| 0 <= m < p.0.len() && p.0[m] == r.0[i];
            assert(st.0.contains(p.0[m]));
        }
    }
}

/// No row left after dropping the cleared items carries a cleared key.
pub proof fn lemma_drop_cleared(rows: Seq<RowView>, cleared: Set<Seq<char>>)
    ensures
        forall|i: int|
            0 <= i < drop_cleared(rows, cleared).len() ==> !is_cleared_row(
                #[trigger] drop_cleared(rows, cleared)[i],
                cleared,
            ),
        forall|i: int|
            0 <= i < drop_cleared(rows, cleared).len() ==> rows.contains(
                #[trigger] drop_cleared(rows, cleared)[i],
            ),
    decreases rows.len(),
{
    if rows.len() > 0 {
        lemma_drop_cleared(rows.drop_last(), cleared);
        let p = drop_cleared(rows.drop_last(), cleared);
        let r = drop_cleared(rows, cleared);
        assert forall|i: int| 0 <= i < r.len() implies !is_cleared_row(#[trigger] r[i], cleared)
            && rows.contains(r[i]) by {
            if i < p.len() {
                assert(r[i] == p[i]);
                let j = choose|j: int| 0 <= j < rows.drop_last().len() && rows.drop_last()[j] == p[i];
                assert(rows[j] == p[i]);
            } else {
                assert(r[i] == rows.last());
                assert(rows[rows.len() - 1] == rows.last());
            }
        }
    }
}

/// Items cleared from another panel leave this one on its next poll: once the cleared
/// marks change, no row left carries a cleared key.
pub proof fn law_poll_drops_items_cleared_elsewhere(
    tailed: Seq<RowView>,
    old_cleared: Set<Seq<char>>,
    new_cleared: Set<Seq<char>>,
)
    requires
        new_cleared != old_cleared,
    ensures
        forall|i: int|
            0 <= i < App::rows_after_poll(tailed, old_cleared, new_cleared).len() ==> !is_cleared_row(
                #[trigger] App::rows_after_poll(tailed, old_cleared, new_cleared)[i],
                new_cleared,
            ),
{
    let d = drop_cleared(tailed, new_cleared);
    lemma_drop_cleared(tailed, new_cleared);
    law_pruned_headers_have_items(d);
    let r = App::rows_after_poll(tailed, old_cleared, new_cleared);
    assert forall|i: int| 0 <= i < r.len() implies !is_cleared_row(#[trigger] r[i], new_cleared) by {
        assert(d.contains(r[i]));
        let j = choose|j: int| 0 <= j < d.len() && d[j] == r[i];
    }
}

/// A cleared item is never appended: if no row carried a cleared key before, none does
/// after a record is added - so a restart's backfill does not resurrect a dismissed item.
pub proof fn law_cleared_items_are_never_appended(
    rows: Seq<RowView>,
    last: Option<(Seq<char>, Seq<char>)>,
    l: LineView,
    home: Seq<char>,
    cleared: Set<Seq<char>>,
)
    requires
        forall|i: int| 0 <= i < rows.len() ==> !is_cleared_row(#[trigger] rows[i], cleared),
    ensures
        forall|i: int|
            0 <= i < append_row_spec(rows, last, l, home, cleared).0.len() ==> !is_cleared_row(
                #[trigger] append_row_spec(rows, last, l, home, cleared).0[i],
                cleared,
            ),
{
    let r = append_row_spec(rows, last, l, home, cleared).0;
    assert forall|i: int| 0 <= i < r.len() implies !is_cleared_row(#[trigger] r[i], cleared) by {
        if i < rows.len() {
            assert(r[i] == rows[i]);
        } else {
            assert(key_of(row_for(l, home)) == Some(item_key_spec(l)));
        }
    }
}

// ---------------------------------------------------------------------------------------
// Cursor and scrolling
// ---------------------------------------------------------------------------------------

/// Keyboard navigation only ever lands on an item: wherever the cursor was, moving it by
/// any amount puts it on an item row when there is one.
pub proof fn law_keyboard_lands_on_items(rows: Seq<RowView>, cursor: Option<usize>, delta: int)
    requires
        rows.len() <= usize::MAX,
        item_indices(rows).len() > 0,
    ensures
        ({
            let items = item_indices(rows);
            let c = items[clamp(cursor_slot(items, cursor) + delta, 0, items.len() - 1)];
            c < rows.len() && is_item(rows[c as int])
        }),
{
    lemma_item_indices(rows);
}

/// After bringing a cursor on a row into view, it is on screen: at or below the scroll
/// offset and within the visible height.
pub proof fn law_cursor_is_visible(scroll: int, height: int, c: usize, len: int)
    requires
        height >= 1,
        0 <= scroll,
        c < len,
    ensures
        visible_scroll(scroll, height, Some(c), len) <= c < visible_scroll(
            scroll,
            height,
            Some(c),
            len,
        ) + height,
        0 <= visible_scroll(scroll, height, Some(c), len) <= max_scroll(len, height),
{
}

/// Keyboard navigation keeps the cursor on screen: after `move_cursor` on a panel with an
/// item, the cursor is on an item row, at or below the scroll offset and within the
/// visible height, the scroll offset fills the list area, and the marks are untouched.
pub proof fn law_moved_cursor_is_on_screen(before: App, after: App, delta: isize)
    requires
        before.wf(),
        App::moved_cursor(before, after, delta),
        item_indices(before.rows_v()).len() > 0,
    ensures
        after.cursor_v() is Some,
        after.cursor_v().unwrap() < after.rows_v().len(),
        is_item(after.rows_v()[after.cursor_v().unwrap() as int]),
        after.scroll_v() <= after.cursor_v().unwrap() < after.scroll_v() + after.height(),
        after.scroll_v() <= max_scroll(after.rows_v().len() as int, after.height()),
        after.done_set() == before.done_set(),
        after.cleared_set() == before.cleared_set(),
{
    let rows = before.rows_v();
    before.lemma_rows_fit();
    lemma_item_indices(rows);
    let items = item_indices(rows);
    let j = clamp(cursor_slot(items, before.cursor_v()) + delta, 0, items.len() - 1);
    assert(0 <= j < items.len());
    let c = items[j];
    assert(after.cursor_v() == Some(c));
    law_cursor_is_visible(before.scroll_v() as int, before.height(), c, rows.len() as int);
}

/// Whether line `l` holds a record at or after the cutoff whose item is not cleared.
pub open spec fn shows_new_item(
    l: Seq<char>,
    cutoff: Option<Seq<char>>,
    cleared: Set<Seq<char>>,
) -> bool {
    parse_line_spec(l) matches Some(p) && passes_cutoff(p.ts, cutoff) && !cleared.contains(
        item_key_spec(p),
    )
}

/// Feeding lines through the row builder never removes a row, and a line holding a new
/// uncleared record adds at least one.
pub proof fn lemma_fold_grows(
    lines: Seq<Seq<char>>,
    cutoff: Option<Seq<char>>,
    start: (Seq<RowView>, Option<(Seq<char>, Seq<char>)>),
    home: Seq<char>,
    cleared: Set<Seq<char>>,
)
    ensures
        fold_rows(lines, cutoff, start, home, cleared).0.len() >= start.0.len(),
        (exists|i: int| 0 <= i < lines.len() && shows_new_item(#[trigger] lines[i], cutoff, cleared))
            ==> fold_rows(lines, cutoff, start, home, cleared).0.len() > start.0.len(),
    decreases lines.len(),
{
    if lines.len() > 0 {
        let prev = lines.drop_last();
        lemma_fold_grows(prev, cutoff, start, home, cleared);
        if exists|i: int| 0 <= i < lines.len() && shows_new_item(#[trigger] lines[i], cutoff, cleared) {
            let i = choose|i: int| 0 <= i < lines.len() && shows_new_item(#[trigger] lines[i], cutoff, cleared);
            if i < prev.len() {
                assert(prev[i] == lines[i]);
            }
        }
    }
}

/// A poll that reads, past its offset, a complete line holding a record whose item is not
/// cleared grows the rows - so `poll` reports a change - as long as the cleared marks it is
/// handed are the ones it had.
pub proof fn law_poll_shows_new_records(
    offset: u64,
    len: u64,
    t: Seq<char>,
    text: String,
    rows: Seq<RowView>,
    last: Option<(Seq<char>, Seq<char>)>,
    home: Seq<char>,
    cleared: Set<Seq<char>>,
    i: int,
)
    requires
        text@ == t,
        offset < len,
        0 <= i < complete_lines(t).len(),
        shows_new_item(complete_lines(t)[i], None, cleared),
    ensures
        App::rows_after_poll(
            poll_tail_spec(
                offset,
                TailRead::Snapshot { len, text: Some(text) },
                rows,
                last,
                home,
                cleared,
            ).1,
            cleared,
            cleared,
        ).len() > rows.len(),
{
    lemma_fold_grows(complete_lines(t), None, (rows, last), home, cleared);
}

/// Feeding lines through the row builder never shows a cleared item that was not already
/// shown.
pub proof fn lemma_fold_shows_no_cleared(
    lines: Seq<Seq<char>>,
    cutoff: Option<Seq<char>>,
    start: (Seq<RowView>, Option<(Seq<char>, Seq<char>)>),
    home: Seq<char>,
    cleared: Set<Seq<char>>,
)
    requires
        shows_no_cleared(start.0, cleared),
    ensures
        shows_no_cleared(fold_rows(lines, cutoff, start, home, cleared).0, cleared),
    decreases lines.len(),
{
    if lines.len() > 0 {
        lemma_fold_shows_no_cleared(lines.drop_last(), cutoff, start, home, cleared);
        let prev = fold_rows(lines.drop_last(), cutoff, start, home, cleared);
        if let Some(p) = parse_line_spec(lines.last()) {
            law_cleared_items_are_never_appended(prev.0, prev.1, p, home, cleared);
        }
    }
}

/// A poll of the log never shows a cleared item that was not already shown.
pub proof fn lemma_poll_tail_shows_no_cleared(
    offset: u64,
    read: TailRead,
    rows: Seq<RowView>,
    last: Option<(Seq<char>, Seq<char>)>,
    home: Seq<char>,
    cleared: Set<Seq<char>>,
)
    requires
        shows_no_cleared(rows, cleared),
    ensures
        shows_no_cleared(poll_tail_spec(offset, read, rows, last, home, cleared).1, cleared),
{
    if let TailRead::Snapshot { len, text } = read {
        let rows1 = if len < offset {
            Seq::<RowView>::empty()
        } else {
            rows
        };
        let last1 = if len < offset {
            None
        } else {
            last
        };
        if let Some(t) = text {
            lemma_fold_shows_no_cleared(complete_lines(t@), None, (rows1, last1), home, cleared);
        }
    }
}


// ---------------------------------------------------------------------------------------
// Clearing a section
// ---------------------------------------------------------------------------------------

/// Key `k` belongs to an item of the section under the header at row `j`: an item row `i`
/// below it with only item rows between them.
pub open spec fn in_section(rows: Seq<RowView>, j: int, k: Seq<char>) -> bool {
    exists|i: int|
        j < i < rows.len() && (forall|m: int| j < m <= i ==> is_item(#[trigger] rows[m]))
            && key_of(#[trigger] rows[i]) == Some(k)
}

/// The keys of the run of items from row `s`: exactly those of the item rows reached from
/// `s` through item rows only.
pub proof fn lemma_run_keys_are_the_run(rows: Seq<RowView>, s: int, k: Seq<char>)
    requires
        0 <= s,
    ensures
        run_keys(rows, s).contains(k) <==> exists|i: int|
            s <= i < rows.len() && (forall|m: int| s <= m <= i ==> is_item(#[trigger] rows[m]))
                && key_of(#[trigger] rows[i]) == Some(k),
    decreases rows.len() - s,
{
    if s < rows.len() && is_item(rows[s]) {
        lemma_run_keys_are_the_run(rows, s + 1, k);
        let rk = run_keys(rows, s);
        let tail = run_keys(rows, s + 1);
        assert(rk == seq![key_of(rows[s]).unwrap()] + tail);
        if rk.contains(k) {
            let p = choose|p: int| 0 <= p < rk.len() && rk[p] == k;
            if p == 0 {
                assert(forall|m: int| s <= m <= s ==> is_item(#[trigger] rows[m]));
                assert(key_of(rows[s]) == Some(k));
            } else {
                assert(tail[p - 1] == k);
                assert(tail.contains(k));
                let i = choose|i: int|
                    s + 1 <= i < rows.len() && (forall|m: int|
                        s + 1 <= m <= i ==> is_item(#[trigger] rows[m])) && key_of(
                        #[trigger] rows[i],
                    ) == Some(k);
                assert(forall|m: int| s <= m <= i ==> is_item(#[trigger] rows[m]));
            }
        }
        if exists|i: int|
            s <= i < rows.len() && (forall|m: int| s <= m <= i ==> is_item(#[trigger] rows[m]))
                && key_of(#[trigger] rows[i]) == Some(k) {
            let i = choose|i: int|
                s <= i < rows.len() && (forall|m: int| s <= m <= i ==> is_item(#[trigger] rows[m]))
                    && key_of(#[trigger] rows[i]) == Some(k);
            if i == s {
                assert(rk[0] == k);
            } else {
                assert(forall|m: int| s + 1 <= m <= i ==> is_item(#[trigger] rows[m]));
                assert(tail.contains(k));
                let p = choose|p: int| 0 <= p < tail.len() && tail[p] == k;
                assert(rk[p + 1] == k);
            }
        }
    } else {
        assert(run_keys(rows, s) =~= Seq::<Seq<char>>::empty());
        if exists|i: int|
            s <= i < rows.len() && (forall|m: int| s <= m <= i ==> is_item(#[trigger] rows[m]))
                && key_of(#[trigger] rows[i]) == Some(k) {
            let i = choose|i: int|
                s <= i < rows.len() && (forall|m: int| s <= m <= i ==> is_item(#[trigger] rows[m]))
                    && key_of(#[trigger] rows[i]) == Some(k);
            assert(is_item(rows[s]));
        }
    }
}

/// Clearing at a group header dismisses its own section and no other: afterwards the
/// cleared marks are those from before plus exactly the keys of the item rows that follow
/// the header up to the next blank or header row.
pub proof fn law_clearing_a_header_clears_only_its_section(before: App, after: App, j: usize)
    requires
        before.wf(),
        App::cleared_at_cursor(before, after),
        before.cursor_v() == Some(j),
        j < before.rows_v().len(),
        before.rows_v()[j as int] is GroupHeader,
    ensures
        forall|k: Seq<char>|
            #[trigger] after.cleared_set().contains(k) <==> before.cleared_set().contains(k)
                || in_section(before.rows_v(), j as int, k),
{
    let rows = before.rows_v();
    let keys = run_keys(rows, j + 1);
    assert(keys_cleared_at(rows, j as int) == Some(keys));
    law_cleared_keys_leave_the_rows((rows, before.cleared_set(), before.pending()), keys);
    assert forall|k: Seq<char>|
        #[trigger] after.cleared_set().contains(k) <==> before.cleared_set().contains(k)
            || in_section(rows, j as int, k) by {
        lemma_run_keys_are_the_run(rows, j + 1, k);
        assert(keys.to_set().contains(k) <==> keys.contains(k));
        if in_section(rows, j as int, k) {
            let i = choose|i: int|
                j < i < rows.len() && (forall|m: int| j < m <= i ==> is_item(#[trigger] rows[m]))
                    && key_of(#[trigger] rows[i]) == Some(k);
            assert(forall|m: int| j + 1 <= m <= i ==> is_item(#[trigger] rows[m]));
        }
        if keys.contains(k) {
            let i = choose|i: int|
                j + 1 <= i < rows.len() && (forall|m: int|
                    j + 1 <= m <= i ==> is_item(#[trigger] rows[m])) && key_of(#[trigger] rows[i])
                    == Some(k);
            assert(forall|m: int| j < m <= i ==> is_item(#[trigger] rows[m]));
        }
    }
}

// ---------------------------------------------------------------------------------------
// The pointer and the wheel
// ---------------------------------------------------------------------------------------

/// A click inside the list area, off the two buttons, acts on the row drawn under the
/// pointer: the first row on screen is `scroll`, so screen row `row` shows list row
/// `scroll + (row - list.y)`; the click lands there, at the column within the list.
pub proof fn law_click_acts_on_the_row_drawn_under_it(
    before: App,
    after: App,
    areas: PanelAreas,
    col: u16,
    row: u16,
)
    requires
        before.wf(),
        before.detail_v() is None,
        App::handled(before, after, Input::Click { col, row }, areas),
        within_spec(areas.list, col, row),
        !within_spec(areas.close, col, row),
        !within_spec(areas.clear_all, col, row),
        before.scroll_v() + (row - areas.list.y) <= usize::MAX,
    ensures
        App::clicked_row(
            before,
            after,
            (before.scroll_v() + (row - areas.list.y)) as usize,
            (col - areas.list.x) as u16,
            areas.list.width,
        ),
{
}

/// Moving the pointer over the list, off the two buttons, puts the cursor on the row drawn
/// under it, `scroll + (row - list.y)`, and lights neither button.
pub proof fn law_hover_puts_the_cursor_on_the_row_drawn_under_it(
    before: App,
    after: App,
    areas: PanelAreas,
    col: u16,
    row: u16,
)
    requires
        before.wf(),
        before.detail_v() is None,
        App::handled(before, after, Input::Hover { col, row }, areas),
        within_spec(areas.list, col, row),
        !within_spec(areas.close, col, row),
        !within_spec(areas.clear_all, col, row),
        before.scroll_v() + (row - areas.list.y) <= usize::MAX,
    ensures
        after.cursor_v() == Some((before.scroll_v() + (row - areas.list.y)) as usize),
        !after.close_hovered_v(),
        !after.clear_all_hovered_v(),
        after.rows_v() == before.rows_v(),
        after.scroll_v() == before.scroll_v(),
{
}

/// Scrolling by `delta` moves the view by exactly `delta` rows when that stays between the
/// top and the last offset that still fills the list area (the rows there are less the
/// height, or none), and otherwise stops at that end; the cursor never moves.
pub proof fn law_scrolling_moves_by_delta_within_the_ends(before: App, after: App, delta: isize)
    requires
        App::scrolled(before, after, delta),
    ensures
        ({
            let s = before.scroll_v() + delta;
            let len = before.rows_v().len() as int;
            let last = if len > before.height() {
                len - before.height()
            } else {
                0
            };
            &&& 0 <= s <= last ==> after.scroll_v() == s
            &&& s < 0 ==> after.scroll_v() == 0
            &&& s > last ==> after.scroll_v() == last
        }),
        after.cursor_v() == before.cursor_v(),
        after.rows_v() == before.rows_v(),
{
}

/// One wheel tick moves the view three rows down or up, stopping at the ends, and never
/// moves the cursor.
pub proof fn law_a_wheel_tick_scrolls_three_rows(
    before: App,
    after: App,
    areas: PanelAreas,
    down: bool,
)
    requires
        before.wf(),
        before.detail_v() is None,
        App::handled(before, after, if down {
            Input::WheelDown
        } else {
            Input::WheelUp
        }, areas),
    ensures
        ({
            let s = before.scroll_v() + (if down {
                3int
            } else {
                -3int
            });
            let len = before.rows_v().len() as int;
            let last = if len > before.height() {
                len - before.height()
            } else {
                0
            };
            after.scroll_v() == (if s < 0 {
                0
            } else if s > last {
                last
            } else {
                s
            })
        }),
        after.cursor_v() == before.cursor_v(),
{
    if down {
        law_scrolling_moves_by_delta_within_the_ends(before, after, 3isize);
    } else {
        law_scrolling_moves_by_delta_within_the_ends(before, after, -3isize);
    }
}

// ---------------------------------------------------------------------------------------
// What a command row shows
// ---------------------------------------------------------------------------------------

/// A command's checkbox shows its done mark: in the line `render_row` draws for a command
/// row (done-ness read from the panel's done marks), the second piece is "[x] " exactly when
/// the command's key is marked done and "[ ] " otherwise, and the command's own text is in
/// the struck-through done style exactly when it is marked done.
pub proof fn law_a_command_box_is_checked_exactly_when_done(
    row: RowView,
    highlighted: bool,
    app: App,
    width: int,
)
    requires
        row is CommandItem,
    ensures
        ({
            let done = app.done_set().contains(key_of(row).unwrap());
            let line = row_line_spec(row, highlighted, done, width);
            let text_at = 2 + (if row->CommandItem_warn is Some {
                1int
            } else {
                0
            }) + (if row->CommandItem_step is Some {
                1int
            } else {
                0
            });
            &&& line.len() > text_at
            &&& line[1].0 == (if done {
                seq!['[', 'x', ']', ' ']
            } else {
                seq!['[', ' ', ']', ' ']
            })
            &&& (line[text_at].1 == Style::CommandDone <==> done)
        }),
{
    reveal_strlit("[x] ");
    reveal_strlit("[ ] ");
    let done = app.done_set().contains(key_of(row).unwrap());
    match row {
        RowView::CommandItem { command, step, warn, key } => {
            let checkbox_style = if highlighted {
                Style::CheckboxHighlighted
            } else {
                Style::Checkbox
            };
            let text_style = if done {
                Style::CommandDone
            } else if highlighted {
                Style::CommandHighlighted
            } else {
                Style::Command
            };
            let checkbox = if done {
                "[x] "@
            } else {
                "[ ] "@
            };
            let w = crate::render::warn_piece(warn);
            let sp = match step {
                Some(st) => seq![(st + ". "@, Style::Dim)],
                None => Seq::<(Seq<char>, Style)>::empty(),
            };
            let head = seq![("  "@, Style::Plain), (checkbox, checkbox_style)];
            let pieces = head + w + sp + seq![(crate::render::flat_command(command), text_style)];
            let text_at: int = (2 + w.len() + sp.len()) as int;
            assert(pieces[1] == (checkbox, checkbox_style));
            assert(pieces[text_at] == (crate::render::flat_command(command), text_style));
            let line = row_line_spec(row, highlighted, done, width);
            assert(line == crate::render::with_clear_glyph_spec(pieces, width));
            assert(line[1] == pieces[1]);
            assert(line[text_at] == pieces[text_at]);
        },
        _ => {},
    }
}

// ---------------------------------------------------------------------------------------
// Legacy lines
// ---------------------------------------------------------------------------------------

/// A legacy (space-delimited) line is a command exactly when the word right after the
/// first `kind=` in its fields is `command`; a line whose first `kind=` says anything else
/// (`kind=review`), or that has no `kind=` at all, is a file to review.
pub proof fn law_a_legacy_line_is_a_command_exactly_when_kind_says_so(line: Seq<char>)
    requires
        !line.contains('\t'),
        parse_line_spec(line) is Some,
    ensures
        ({
            let rest = v1_rest(split_once_spec(line, ' ').unwrap().1);
            let kind = extract_field_spec(rest, seq!['k', 'i', 'n', 'd', '=']);
            &&& parse_line_spec(line).unwrap().is_command <==> kind == Some(
                seq!['c', 'o', 'm', 'm', 'a', 'n', 'd'],
            )
            &&& kind is None ==> !parse_line_spec(line).unwrap().is_command
        }),
{
    assert(marker(key_kind()) =~= seq!['k', 'i', 'n', 'd', '=']);
    assert(word_command() =~= seq!['c', 'o', 'm', 'm', 'a', 'n', 'd']);
}
} // verus!
