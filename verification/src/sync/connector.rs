//! Sync connectors. The `Connector` enum isolates everything
//! service-specific.
//!
//! Bingqilin API contract (v0.1, to be confirmed against the real API once
//! documented):
//!   POST {base}/api/v1/sync
//!   Authorization: Bearer <token>
//!   Body:     { "ops": [ SyncOp, ... ] }
//!   Response: { "results": [ { "id": <op id>, "status": "ok" | "error",
//!                              "remote_id": <string, optional>,
//!                              "error": <string, optional> } ] }
//!
//! For development, a server URL of "mock" or "mock://..." selects the
//! mock connector, which acknowledges every op and fabricates remote ids.

use vstd::prelude::*;
use vstd::string::StringSliceAdditionalSpecFns;
use vstd::utf8::{decode_utf8, encode_utf8, is_ascii_chars, is_char_boundary};

use super::SyncOp;
use crate::db::{is_lower_hex, is_uuid_v4_text};
use crate::text::{chars_of, concat, same_text, spec_trim, string_of, to_string, trim};

verus! {

broadcast use vstd::utf8::group_utf8_lib;

/// The result of pushing one op.
#[derive(Debug, PartialEq, Eq)]
pub struct OpResult {
    pub op_id: String,
    /// `Ok(Some(remote_id))` on success; `Err(message)` on per-op failure.
    pub outcome: Result<Option<String>, String>,
}

/// Where queued ops are pushed.
#[derive(Debug, Clone, PartialEq, Eq)]
pub enum Connector {
    /// Acknowledges every op locally.
    Mock,
    /// The Bingqilin service at `base_url`, authenticated with `token`.
    Bingqilin { base_url: String, token: String },
}

/// `s` without trailing slashes.
pub open spec fn trim_end_slashes(s: Seq<char>) -> Seq<char>
    decreases s.len(),
{
    if s.len() > 0 && s.last() == '/' {
        trim_end_slashes(s.drop_last())
    } else {
        s
    }
}

/// The configured server URL as the connector uses it: trimmed, without
/// trailing slashes.
pub open spec fn settings_url(server_url: Seq<char>) -> Seq<char> {
    trim_end_slashes(spec_trim(server_url))
}

/// Whether a configured server URL selects the mock connector: once
/// trimmed, it is empty or `mock` (trailing slashes aside), or it starts
/// with `mock://`.
pub open spec fn is_mock_url(server_url: Seq<char>) -> bool {
    let t = spec_trim(server_url);
    let u = trim_end_slashes(t);
    ||| u.len() == 0
    ||| u == "mock"@
    ||| (t.len() >= 7 && t.take(7) == "mock://"@)
}

/// The remote id the mock connector gives an op: `mock-` followed by the
/// first eight bytes of the op's id (all of it when shorter).
pub open spec fn mock_remote_id(op_id: Seq<char>) -> Seq<char> {
    let bytes = encode_utf8(op_id);
    let k = if bytes.len() < 8 {
        bytes.len() as int
    } else {
        8
    };
    "mock-"@ + decode_utf8(bytes.take(k))
}

/// Whether the first eight bytes of an id (all of it when shorter) end on
/// a character boundary.
pub open spec fn mock_id_cut_ok(op_id: Seq<char>) -> bool {
    let bytes = encode_utf8(op_id);
    is_char_boundary(bytes, if bytes.len() < 8 {
        bytes.len() as int
    } else {
        8
    })
}

impl Connector {
    /// The connector for the configured server URL and token.
    pub fn from_settings(server_url: &str, token: &str) -> (r: Connector)
        ensures
            is_mock_url(server_url@) ==> r is Mock,
            !is_mock_url(server_url@) ==> (r matches Connector::Bingqilin {
                base_url,
                token: t,
            } && base_url@ == settings_url(server_url@) && t@ == token@),
    {
        let trimmed = trim(server_url);
        let chars = chars_of(trimmed.as_str());
        let mut end = chars.len();
        assert(chars@.take(chars@.len() as int) == chars@);
        while end > 0 && chars[end - 1] == '/'
            invariant
                end <= chars@.len(),
                chars@ == spec_trim(server_url@),
                trim_end_slashes(chars@) == trim_end_slashes(chars@.take(end as int)),
            decreases end,
        {
            assert(chars@.take(end as int).drop_last() == chars@.take(end - 1));
            end -= 1;
        }
        assert(chars@.take(chars@.len() as int) == chars@);
        let url = string_of(&chars, 0, end);
        assert(url@ == chars@.take(end as int));
        let scheme = chars.len() >= 7 && same_text(string_of(&chars, 0, 7).as_str(), "mock://");
        let is_mock = url.as_str().is_empty() || same_text(url.as_str(), "mock") || scheme;
        proof {
            if chars@.len() >= 7 {
                assert(chars@.subrange(0, 7) == chars@.take(7));
            }
        }
        if is_mock {
            Connector::Mock
        } else {
            Connector::Bingqilin { base_url: url, token: to_string(token) }
        }
    }

    /// What the mock connector answers: every op acknowledged, in order,
    /// with a fabricated remote id.
    pub fn mock_results(ops: &Vec<SyncOp>) -> (r: Vec<OpResult>)
        requires
            forall|i: int| 0 <= i < ops@.len() ==> mock_id_cut_ok(#[trigger] ops@[i].id@),
        ensures
            r@.len() == ops@.len(),
            forall|i: int|
                0 <= i < ops@.len() ==> {
                    &&& (#[trigger] r@[i]).op_id == ops@[i].id
                    &&& r@[i].outcome matches Ok(Some(remote)) && remote@ == mock_remote_id(
                        ops@[i].id@,
                    )
                },
    {
        let mut out: Vec<OpResult> = Vec::new();
        let mut i: usize = 0;
        while i < ops.len()
            invariant
                i <= ops@.len(),
                out@.len() == i,
                forall|j: int| 0 <= j < ops@.len() ==> mock_id_cut_ok(#[trigger] ops@[j].id@),
                forall|j: int|
                    0 <= j < i ==> {
                        &&& (#[trigger] out@[j]).op_id == ops@[j].id
                        &&& out@[j].outcome matches Ok(Some(remote)) && remote@ == mock_remote_id(
                            ops@[j].id@,
                        )
                    },
            decreases ops@.len() - i,
        {
            let op = &ops[i];
            assert(mock_id_cut_ok(ops@[i as int].id@));
            let id = op.id.as_str();
            let n = id.as_bytes().len();
            let k = if n < 8 {
                n
            } else {
                8
            };
            assert(id@ == op.id@);
            assert(id.spec_bytes() == encode_utf8(id@));
            assert(k as int == if encode_utf8(id@).len() < 8 {
                encode_utf8(id@).len() as int
            } else {
                8
            });
            let (head, _) = id.split_at(k);
            proof {
                assert(encode_utf8(head@) == encode_utf8(id@).take(k as int));
                assert(decode_utf8(encode_utf8(head@)) == head@);
            }
            let remote = concat("mock-", head);
            out.push(OpResult { op_id: op.id.clone(), outcome: Ok(Some(remote)) });
            i += 1;
        }
        out
    }
}

/// The endpoint ops are pushed to: `{base_url}/api/v1/sync`.
pub fn sync_url(base_url: &str) -> (r: String)
    ensures
        r@ == base_url@ + "/api/v1/sync"@,
{
    concat(base_url, "/api/v1/sync")
}

impl OpResult {
    /// One row of the service's response: status `ok` means success with
    /// the optional remote id; any other status is a failure carrying the
    /// row's error, or `status <status>` when it has none.
    pub fn from_wire(
        id: String,
        status: String,
        remote_id: Option<String>,
        error: Option<String>,
    ) -> (r: OpResult)
        ensures
            r.op_id == id,
            status@ == "ok"@ ==> r.outcome == Ok::<Option<String>, String>(remote_id),
            status@ != "ok"@ ==> match error {
                Some(e) => r.outcome == Err::<Option<String>, String>(e),
                None => r.outcome matches Err(m) && m@ == "status "@ + status@,
            },
    {
        let outcome = if same_text(status.as_str(), "ok") {
            Ok(remote_id)
        } else {
            match error {
                Some(e) => Err(e),
                None => Err(concat("status ", status.as_str())),
            }
        };
        OpResult { op_id: id, outcome }
    }
}

/// Trailing slashes are all removed.
proof fn lemma_trim_end_slashes(s: Seq<char>)
    ensures
        trim_end_slashes(s).len() > 0 ==> trim_end_slashes(s).last() != '/',
    decreases s.len(),
{
    if s.len() > 0 && s.last() == '/' {
        lemma_trim_end_slashes(s.drop_last());
    }
}

/// A Bingqilin connector always has a non-empty base URL without a
/// trailing slash, so `{base_url}/api/v1/sync` has exactly one slash before
/// `api`.
pub proof fn lemma_bingqilin_base_url(server_url: Seq<char>)
    ensures
        !is_mock_url(server_url) ==> settings_url(server_url).len() > 0
            && settings_url(server_url).last() != '/',
{
    lemma_trim_end_slashes(spec_trim(server_url));
}

/// Ids made by the app (version 4 UUID text) are ASCII, so the mock
/// connector can cut them and gives `mock-` and their first eight
/// characters.
pub proof fn lemma_mock_remote_id_of_uuid(id: Seq<char>)
    requires
        is_uuid_v4_text(id),
    ensures
        mock_id_cut_ok(id),
        mock_remote_id(id) == "mock-"@ + id.take(8),
{
    assert(is_ascii_chars(id)) by {
        assert forall|i: int| 0 <= i < id.len() implies '\0' <= #[trigger] id[i] <= '\u{7f}' by {
            if !(i == 8 || i == 13 || i == 18 || i == 23) {
                assert(is_lower_hex(id[i]));
            }
        }
    }
    let head = id.take(8);
    assert(is_ascii_chars(head));
    vstd::utf8::is_ascii_chars_encode_utf8(id);
    vstd::utf8::is_ascii_chars_encode_utf8(head);
    let bytes = encode_utf8(id);
    assert(bytes.len() == 36);
    assert(encode_utf8(head) == bytes.take(8));
    assert(decode_utf8(encode_utf8(head)) == head);
    vstd::utf8::is_char_boundary_iff_is_leading_byte(bytes, 8);
    assert(bytes[8] == id[8] as u8);
}

} // verus!
