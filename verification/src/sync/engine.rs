//! Sync engine: replays the durable outbox through the configured
//! connector, applies per-op results, and records sync status. Never blocks
//! dictionary use; failures are recorded, not raised as dialogs.
//!
//! A sync run reads a batch of queued ops and the settings, decides whether
//! to push at all ([`begin_sync`]), pushes through the connector, matches
//! the per-op results back to their ops ([`SyncTally`]), applies each
//! matched result to the user database ([`apply_result`]), and reports
//! ([`sync_report`]).

use vstd::prelude::*;

use super::connector::{is_mock_url, settings_url, Connector, OpResult};
use super::SyncOp;
use crate::db::{is_digit, is_rfc3339_utc, now};
use crate::error::AppError;
use crate::text::{decimal_digits, digit_char, push_decimal, same_text, spec_trim, to_string, trim};

verus! {

broadcast use vstd::seq_lib::group_seq_properties;

/// How many queued ops one sync run pushes.
pub const BATCH_SIZE: usize = 100;

/// After this many failed pushes an entity is marked as in error.
pub const MAX_ATTEMPTS: i64 = 5;

/// The outcome of a sync run, as shown to the user.
#[derive(Debug, PartialEq, Eq)]
pub struct SyncReport {
    pub pushed: usize,
    pub failed: usize,
    pub pending: usize,
    pub message: String,
    pub synced_at: Option<String>,
}

/// The sync settings and status, as shown to the user.
#[derive(Debug, PartialEq, Eq)]
pub struct SyncSettingsView {
    pub server_url: String,
    pub has_token: bool,
    pub pending_ops: i64,
    pub last_sync_at: Option<String>,
    pub last_error: Option<String>,
}

/// `Some(s)` when `s` is present and not empty.
pub open spec fn non_empty(s: Option<String>) -> Option<String> {
    match s {
        Some(v) => if v@.len() > 0 {
            Some(v)
        } else {
            None
        },
        None => None,
    }
}

fn keep_non_empty(s: Option<String>) -> (r: Option<String>)
    ensures
        r == non_empty(s),
{
    match s {
        Some(v) => if v.as_str().is_empty() {
            None
        } else {
            Some(v)
        },
        None => None,
    }
}

/// The settings view from the stored settings: the server URL (empty when
/// unset), whether a non-empty token is stored, the number of queued ops,
/// and the last sync time and error when they are set and not empty.
pub fn get_sync_settings(
    server_url: Option<String>,
    auth_token: Option<String>,
    pending_ops: i64,
    last_sync_at: Option<String>,
    last_error: Option<String>,
) -> (r: SyncSettingsView)
    ensures
        r.server_url@ == match server_url {
            Some(u) => u@,
            None => Seq::<char>::empty(),
        },
        r.has_token == (auth_token matches Some(t) && t@.len() > 0),
        r.pending_ops == pending_ops,
        r.last_sync_at == non_empty(last_sync_at),
        r.last_error == non_empty(last_error),
{
    let server_url = match server_url {
        Some(u) => u,
        None => String::new(),
    };
    let has_token = match &auth_token {
        Some(t) => !t.as_str().is_empty(),
        None => false,
    };
    SyncSettingsView {
        server_url,
        has_token,
        pending_ops,
        last_sync_at: keep_non_empty(last_sync_at),
        last_error: keep_non_empty(last_error),
    }
}

/// What saving the sync settings stores.
#[derive(Debug, PartialEq, Eq)]
pub struct SettingsUpdate {
    /// The server URL to store.
    pub server_url: String,
    /// The token to store; `None` keeps the stored token.
    pub auth_token: Option<String>,
}

/// Saving the sync settings: the server URL is stored trimmed; a token that
/// is absent or empty keeps the stored token.
pub fn set_sync_settings(server_url: &str, auth_token: Option<String>) -> (r: SettingsUpdate)
    ensures
        r.server_url@ == spec_trim(server_url@),
        r.auth_token == non_empty(auth_token),
{
    SettingsUpdate { server_url: trim(server_url), auth_token: keep_non_empty(auth_token) }
}

/// How a sync run starts: with nothing queued there is nothing to push
/// (`Ok(None)`); with ops queued but no server URL configured sync is not
/// configured; otherwise the connector for the settings.
pub fn begin_sync(ops: &Vec<SyncOp>, url: &str, token: &str) -> (r: Result<
    Option<Connector>,
    AppError,
>)
    ensures
        ops@.len() == 0 ==> r == Ok::<Option<Connector>, AppError>(None),
        ops@.len() > 0 && spec_trim(url@).len() == 0 ==> r == Err::<Option<Connector>, AppError>(
            AppError::SyncNotConfigured,
        ),
        ops@.len() > 0 && spec_trim(url@).len() > 0 ==> (r matches Ok(Some(c)) && (is_mock_url(url@) ==> c
            is Mock) && (!is_mock_url(url@) ==> (c matches Connector::Bingqilin {
            base_url,
            token: t,
        } && base_url@ == settings_url(url@) && t@ == token@))),
{
    if ops.len() == 0 {
        return Ok(None);
    }
    if trim(url).as_str().is_empty() {
        return Err(AppError::SyncNotConfigured);
    }
    Ok(Some(Connector::from_settings(url, token)))
}

/// The report of a run that found nothing queued.
pub fn nothing_to_sync(pending: i64) -> (r: SyncReport)
    ensures
        r.pushed == 0,
        r.failed == 0,
        r.pending == pending as usize,
        r.message@ == "Nothing to sync"@,
        r.synced_at matches Some(t) && is_rfc3339_utc(t@),
{
    SyncReport {
        pushed: 0,
        failed: 0,
        pending: pending as usize,
        message: to_string("Nothing to sync"),
        synced_at: Some(now()),
    }
}

/// The user-database table an entity kind lives in.
#[derive(Debug, Clone, Copy, PartialEq, Eq, Structural)]
pub enum Table {
    Lists,
    ListItems,
}

impl Table {
    /// The table's name.
    pub open spec fn spec_name(self) -> Seq<char> {
        match self {
            Table::Lists => "lists"@,
            Table::ListItems => "list_items"@,
        }
    }

    /// The table's name.
    pub fn name(self) -> (r: &'static str)
        ensures
            r@ == self.spec_name(),
    {
        match self {
            Table::Lists => "lists",
            Table::ListItems => "list_items",
        }
    }
}

/// What applying one per-op result does to the user database.
#[derive(Debug, PartialEq, Eq)]
pub enum ApplyAction {
    /// The op's entity is of no known kind: nothing changes.
    Skip,
    /// The op went through: it leaves the outbox and its entity is marked
    /// synced, taking the remote id when one came back (a tombstoned row is
    /// still marked, so it can be collected later).
    Synced { table: Table, remote_id: Option<String> },
    /// The op failed: its attempt count goes up, and once it reaches
    /// [`MAX_ATTEMPTS`] its entity is marked as in error.
    Failed { table: Table },
}

/// The table of an entity kind: `list` and `item`; others have none.
pub open spec fn entity_table(entity: Seq<char>) -> Option<Table> {
    if entity == "list"@ {
        Some(Table::Lists)
    } else if entity == "item"@ {
        Some(Table::ListItems)
    } else {
        None
    }
}

/// What applying `result` to the op it answers does.
pub fn apply_result(op: &SyncOp, result: &OpResult) -> (r: ApplyAction)
    ensures
        match entity_table(op.entity@) {
            None => r == ApplyAction::Skip,
            Some(t) => match result.outcome {
                Ok(remote) => r == ApplyAction::Synced { table: t, remote_id: remote },
                Err(_) => r == ApplyAction::Failed { table: t },
            },
        },
{
    let table = if same_text(op.entity.as_str(), "list") {
        Table::Lists
    } else if same_text(op.entity.as_str(), "item") {
        Table::ListItems
    } else {
        return ApplyAction::Skip;
    };
    match &result.outcome {
        Ok(remote) => {
            let remote_id = match remote {
                Some(s) => Some(s.clone()),
                None => None,
            };
            ApplyAction::Synced { table, remote_id }
        },
        Err(_) => ApplyAction::Failed { table },
    }
}

/// Whether a failed op has used up its attempts.
pub fn attempts_exhausted(attempts: i64) -> (r: bool)
    ensures
        r == (attempts >= MAX_ATTEMPTS),
{
    attempts >= MAX_ATTEMPTS
}

/// The first index from `j` on of an op with id `id`.
pub open spec fn op_index_from(ops: Seq<SyncOp>, id: Seq<char>, j: int) -> Option<int>
    decreases ops.len() - j,
{
    if j < 0 || j >= ops.len() {
        None
    } else if ops[j].id@ == id {
        Some(j)
    } else {
        op_index_from(ops, id, j + 1)
    }
}

/// The index of the first op with id `id`, if any.
pub open spec fn op_index(ops: Seq<SyncOp>, id: Seq<char>) -> Option<int> {
    op_index_from(ops, id, 0)
}

/// The first failure message among the results, if any.
pub open spec fn first_error(results: Seq<OpResult>) -> Option<Seq<char>>
    decreases results.len(),
{
    if results.len() == 0 {
        None
    } else {
        match results[0].outcome {
            Err(m) => Some(m@),
            Ok(_) => first_error(results.drop_first()),
        }
    }
}

/// Whether a result answers one of the ops pushed and succeeded.
pub open spec fn pushed_ok(ops: Seq<SyncOp>, r: OpResult) -> bool {
    op_index(ops, r.op_id@) is Some && r.outcome is Ok
}

/// Whether a result answers one of the ops pushed and failed.
pub open spec fn pushed_failed(ops: Seq<SyncOp>, r: OpResult) -> bool {
    op_index(ops, r.op_id@) is Some && r.outcome is Err
}

/// The per-op results of a push, matched back to the ops pushed.
#[derive(Debug, PartialEq, Eq)]
pub struct SyncTally {
    /// For each result, in order, the index of the op it answers (the
    /// first op with its id), or `None` when it answers none.
    pub matches: Vec<Option<usize>>,
    /// Results that answer an op and succeeded.
    pub pushed: usize,
    /// Results that answer an op and failed.
    pub failed: usize,
    /// The first failure message among all results.
    pub last_error: Option<String>,
}

fn find_op(ops: &Vec<SyncOp>, id: &String) -> (r: Option<usize>)
    ensures
        match op_index(ops@, id@) {
            Some(k) => r == Some(k as usize),
            None => r is None,
        },
{
    let mut j: usize = 0;
    while j < ops.len()
        invariant
            j <= ops@.len(),
            op_index(ops@, id@) == op_index_from(ops@, id@, j as int),
        decreases ops@.len() - j,
    {
        if ops[j].id == *id {
            return Some(j);
        }
        j += 1;
    }
    None
}

impl SyncTally {
    /// Matches each result to the op it answers and counts the pushed and
    /// failed ones; results that answer no op pushed are not counted.
    pub fn new(ops: &Vec<SyncOp>, results: &Vec<OpResult>) -> (r: SyncTally)
        ensures
            r.matches@.len() == results@.len(),
            forall|i: int|
                0 <= i < results@.len() ==> match op_index(ops@, (#[trigger] results@[i]).op_id@) {
                    Some(k) => r.matches@[i] == Some(k as usize),
                    None => r.matches@[i] is None,
                },
            r.pushed == results@.filter(|x: OpResult| pushed_ok(ops@, x)).len(),
            r.failed == results@.filter(|x: OpResult| pushed_failed(ops@, x)).len(),
            r.pushed + r.failed <= results@.len(),
            match first_error(results@) {
                Some(m) => r.last_error matches Some(e) && e@ == m,
                None => r.last_error is None,
            },
    {
        let ghost okp = |x: OpResult| pushed_ok(ops@, x);
        let ghost errp = |x: OpResult| pushed_failed(ops@, x);
        let mut matches: Vec<Option<usize>> = Vec::new();
        let mut pushed: usize = 0;
        let mut failed: usize = 0;
        let mut last_error: Option<String> = None;
        let mut i: usize = 0;
        while i < results.len()
            invariant
                i <= results@.len(),
                okp == (|x: OpResult| pushed_ok(ops@, x)),
                errp == (|x: OpResult| pushed_failed(ops@, x)),
                matches@.len() == i,
                forall|j: int|
                    0 <= j < i ==> match op_index(ops@, (#[trigger] results@[j]).op_id@) {
                        Some(k) => matches@[j] == Some(k as usize),
                        None => matches@[j] is None,
                    },
                pushed == results@.take(i as int).filter(okp).len(),
                failed == results@.take(i as int).filter(errp).len(),
                pushed + failed <= i,
                match first_error(results@.take(i as int)) {
                    Some(m) => last_error matches Some(e) && e@ == m && first_error(results@)
                        == Some(m),
                    None => last_error is None && first_error(results@) == first_error(
                        results@.skip(i as int),
                    ),
                },
            decreases results@.len() - i,
        {
            let r = &results[i];
            let ghost pre = results@.take(i as int);
            assert(results@.take(i + 1) == pre.push(*r));
            proof {
                pre.lemma_filter_push(*r, okp);
                pre.lemma_filter_push(*r, errp);
                lemma_first_error_push(pre, *r);
                assert(results@.skip(i as int).drop_first() == results@.skip(i + 1));
                assert(results@.skip(i as int)[0] == *r);
            }
            let found = find_op(ops, &r.op_id);
            matches.push(found);
            match found {
                Some(_) => match &r.outcome {
                    Ok(_) => {
                        pushed += 1;
                    },
                    Err(_) => {
                        failed += 1;
                    },
                },
                None => {},
            }
            if last_error.is_none() {
                match &r.outcome {
                    Err(m) => {
                        last_error = Some(m.clone());
                    },
                    Ok(_) => {},
                }
            }
            i += 1;
        }
        assert(results@.take(results@.len() as int) == results@);
        SyncTally { matches, pushed, failed, last_error }
    }

    /// The value recorded as the last sync error: the first failure
    /// message, or empty when every result succeeded.
    pub fn last_error_state(&self) -> (r: String)
        ensures
            r@ == match self.last_error {
                Some(e) => e@,
                None => Seq::<char>::empty(),
            },
    {
        match &self.last_error {
            Some(e) => e.clone(),
            None => String::new(),
        }
    }
}

/// The first failure among `s` followed by `r`.
proof fn lemma_first_error_push(s: Seq<OpResult>, r: OpResult)
    ensures
        first_error(s.push(r)) == match first_error(s) {
            Some(m) => Some(m),
            None => match r.outcome {
                Err(m) => Some(m@),
                Ok(_) => None,
            },
        },
    decreases s.len(),
{
    if s.len() > 0 {
        assert(s.push(r).drop_first() == s.drop_first().push(r));
        lemma_first_error_push(s.drop_first(), r);
    } else {
        assert(s.push(r).drop_first() == Seq::<OpResult>::empty());
    }
}

/// The message of a finished run: `Synced <n> change(s)`, or
/// `Synced <n>, <m> failed: <first error>` when some op failed.
pub open spec fn report_message(pushed: nat, failed: nat, last_error: Option<String>) -> Seq<
    char,
> {
    match last_error {
        Some(e) => "Synced "@ + decimal_digits(pushed) + ", "@ + decimal_digits(failed)
            + " failed: "@ + e@,
        None => "Synced "@ + decimal_digits(pushed) + " change(s)"@,
    }
}

/// How many decimal digits `s` starts with.
pub open spec fn leading_digits(s: Seq<char>) -> nat
    decreases s.len(),
{
    if s.len() > 0 && is_digit(s[0]) {
        1 + leading_digits(s.drop_first())
    } else {
        0
    }
}

/// The number written by the decimal digits `d`, most significant first.
pub open spec fn digits_value(d: Seq<char>) -> int
    decreases d.len(),
{
    if d.len() == 0 {
        0
    } else {
        digits_value(d.drop_last()) * 10 + (d.last() as int - 48)
    }
}

/// The number that `s` starts with, read as decimal.
pub open spec fn leading_number(s: Seq<char>) -> int {
    digits_value(s.take(leading_digits(s) as int))
}

/// What follows the number that `s` starts with.
pub open spec fn after_number(s: Seq<char>) -> Seq<char> {
    s.skip(leading_digits(s) as int)
}

proof fn lemma_decimal_digits_read_back(n: nat)
    ensures
        decimal_digits(n).len() >= 1,
        forall|i: int| 0 <= i < decimal_digits(n).len() ==> is_digit(#[trigger] decimal_digits(n)[i]),
        digits_value(decimal_digits(n)) == n,
    decreases n,
{
    if n >= 10 {
        lemma_decimal_digits_read_back(n / 10);
        let d = decimal_digits(n);
        assert(d.drop_last() == decimal_digits(n / 10));
        assert(d.last() == digit_char(n % 10));
        assert(digit_char(n % 10) as int == 48 + n % 10);
        assert(n == (n / 10) * 10 + n % 10);
        assert(digits_value(d) == digits_value(d.drop_last()) * 10 + (d.last() as int - 48));
    } else {
        let d = decimal_digits(n);
        assert(d.drop_last() == Seq::<char>::empty());
        assert(digit_char(n) as int == 48 + n);
        assert(digits_value(Seq::<char>::empty()) == 0);
        assert(digits_value(d) == digits_value(d.drop_last()) * 10 + (d.last() as int - 48));
    }
}

proof fn lemma_leading_digits_of(d: Seq<char>, rest: Seq<char>)
    requires
        forall|i: int| 0 <= i < d.len() ==> is_digit(#[trigger] d[i]),
        rest.len() == 0 || !is_digit(rest[0]),
    ensures
        leading_digits(d + rest) == d.len(),
        (d + rest).take(d.len() as int) == d,
        (d + rest).skip(d.len() as int) == rest,
    decreases d.len(),
{
    if d.len() > 0 {
        assert(is_digit(d[0]));
        lemma_leading_digits_of(d.drop_first(), rest);
        assert((d + rest).drop_first() == d.drop_first() + rest);
    }
    assert((d + rest).take(d.len() as int) == d);
    assert((d + rest).skip(d.len() as int) == rest);
}

/// Reading `decimal_digits(n)` followed by text that does not start with a
/// digit gives back `n` and that text.
proof fn lemma_read_number(n: nat, rest: Seq<char>)
    requires
        rest.len() == 0 || !is_digit(rest[0]),
    ensures
        leading_number(decimal_digits(n) + rest) == n,
        after_number(decimal_digits(n) + rest) == rest,
{
    lemma_decimal_digits_read_back(n);
    lemma_leading_digits_of(decimal_digits(n), rest);
}

/// The report's text agrees with its counts: after `Synced ` comes the
/// number of ops pushed; when some op failed it is followed by `, `, the
/// number failed, ` failed: ` and the first error, and otherwise by
/// ` change(s)`.
pub proof fn lemma_report_message_counts(pushed: nat, failed: nat, e: String)
    ensures
        ({
            let m = report_message(pushed, failed, Some(e));
            let rest = after_number(m.skip(7));
            &&& m.take(7) == "Synced "@
            &&& leading_number(m.skip(7)) == pushed
            &&& rest.take(2) == ", "@
            &&& leading_number(rest.skip(2)) == failed
            &&& after_number(rest.skip(2)) == " failed: "@ + e@
        }),
        ({
            let m = report_message(pushed, failed, None);
            &&& m.take(7) == "Synced "@
            &&& leading_number(m.skip(7)) == pushed
            &&& after_number(m.skip(7)) == " change(s)"@
        }),
{
    reveal_strlit("Synced ");
    reveal_strlit(", ");
    reveal_strlit(" failed: ");
    reveal_strlit(" change(s)");
    let s = "Synced "@;
    let m = report_message(pushed, failed, Some(e));
    let tail = " failed: "@ + e@;
    let rest = ", "@ + decimal_digits(failed) + tail;
    assert(m == s + (decimal_digits(pushed) + rest));
    assert(m.take(7) == s);
    assert(m.skip(7) == decimal_digits(pushed) + rest);
    lemma_read_number(pushed, rest);
    assert(rest.take(2) == ", "@);
    assert(rest.skip(2) == decimal_digits(failed) + tail);
    assert(tail[0] == ' ');
    lemma_read_number(failed, tail);
    let m2 = report_message(pushed, failed, None);
    let c = " change(s)"@;
    assert(m2 == s + (decimal_digits(pushed) + c));
    assert(m2.take(7) == s);
    assert(m2.skip(7) == decimal_digits(pushed) + c);
    assert(c[0] == ' ');
    lemma_read_number(pushed, c);
}

/// The report of a run whose results were applied, with `pending` ops
/// still queued.
pub fn sync_report(tally: SyncTally, pending: i64) -> (r: SyncReport)
    ensures
        r.pushed == tally.pushed,
        r.failed == tally.failed,
        r.pending == pending as usize,
        r.message@ == report_message(tally.pushed as nat, tally.failed as nat, tally.last_error),
        r.synced_at matches Some(t) && is_rfc3339_utc(t@),
{
    let mut message = to_string("Synced ");
    push_decimal(&mut message, tally.pushed as u64);
    match &tally.last_error {
        Some(e) => {
            message.append(", ");
            push_decimal(&mut message, tally.failed as u64);
            message.append(" failed: ");
            message.append(e.as_str());
        },
        None => {
            message.append(" change(s)");
        },
    }
    SyncReport {
        pushed: tally.pushed,
        failed: tally.failed,
        pending: pending as usize,
        message,
        synced_at: Some(now()),
    }
}

} // verus!
