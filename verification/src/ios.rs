//! The miner as an iOS app holds it: what the app sets, starting and stopping, and the status that
//! it is shown.
use std::path::PathBuf;

use vstd::prelude::*;
use vstd::string::*;

use crate::devfund::{DEVFUND_ADDRESS, DEVFUND_PERCENT};
use crate::paths::join;
use crate::registry::{set_mining_tier, MiningTier};
use crate::text::{lines, push_decimal, push_quoted};
#[allow(unused_imports)]
use crate::paths::is_joined;
#[allow(unused_imports)]
use crate::journal::{can_take, law_log, log_after, with_message, LOG_KEPT};
#[allow(unused_imports)]
use crate::text::{
    decimal, digit, law_added_line_is_last, law_decimal, law_decimals_differ,
    law_quoted_list_is_reversible, lines_of, number_of, quoted_list, read_quoted_list,
    strip_return, views,
};
#[allow(unused_imports)]
use vstd::utf8::encode_utf8;

verus! {

/// The directory that holds the models, one directory each.
pub const MODELS_DIR: &'static str = "keryx-models";

/// The mining address while the app has set none.
pub const DEFAULT_MINING_ADDRESS: &'static str = "keryx:ios:miner";

/// The lines of the log that a status shows.
pub const STATUS_LINES: usize = 20;

/// What a slot holds once a value was offered to it: the first value stays.
pub open spec fn first_value<T>(slot: Option<T>, value: T) -> Option<T> {
    if slot is Some {
        slot
    } else {
        Some(value)
    }
}

/// Offers a value to a slot.
fn set_once<T>(slot: &mut Option<T>, value: T)
    ensures
        *final(slot) == first_value(*old(slot), value),
{
    if slot.is_none() {
        *slot = Some(value);
    }
}

/// Of two values that are offered to a slot, the second has no effect.
pub proof fn law_first_value_stays<T>(slot: Option<T>, first: T, second: T)
    ensures
        first_value(first_value(slot, first), second) == first_value(slot, first),
        slot is None ==> first_value(slot, first) == Some(first),
        slot is Some ==> first_value(slot, first) == slot,
{
}

/// The directory of the models, under the directory that the app gives.
pub fn models_dir(base: &PathBuf) -> (dir: PathBuf)
    ensures
        is_joined(*base, MODELS_DIR, dir),
{
    join(base, MODELS_DIR)
}

/// Sets where the models are: in their directory under `path`, which is none if it could not be
/// decoded. The result is the directory, which has to be created whether it was set or not; it is
/// none if the call is refused.
pub fn keryx_miner_set_doc_path(model_base: &mut Option<PathBuf>, path: Option<PathBuf>) -> (r:
    Option<PathBuf>)
    ensures
        r is Some <==> path is Some,
        match path {
            Some(p) => {
                &&& is_joined(p, MODELS_DIR, r->0)
                &&& *final(model_base) == first_value(*old(model_base), r->0)
            },
            None => *final(model_base) == *old(model_base),
        },
{
    match path {
        Some(p) => {
            let dir: PathBuf = models_dir(&p);
            set_once(model_base, dir.clone());
            Some(dir)
        },
        None => None,
    }
}

/// Whether a call succeeded, and what it logs.
pub struct Answer {
    pub ok: bool,
    pub messages: Vec<String>,
}

/// Messages of one text.
fn one_message(text: &str) -> (v: Vec<String>)
    ensures
        views(v@) == seq![text@],
{
    let mut v: Vec<String> = Vec::new();
    v.push(text.to_owned());
    assert(views(v@) =~= seq![text@]);
    v
}

/// Sets the node's address. `address` is none if it could not be decoded.
pub fn keryx_miner_connect(grpc_address: &mut Option<String>, address: Option<String>) -> (answer:
    Answer)
    ensures
        answer.ok == address is Some,
        match address {
            Some(a) => {
                &&& *final(grpc_address) == first_value(*old(grpc_address), a)
                &&& views(answer.messages@) == seq!["ios: gRPC address set"@]
            },
            None => {
                &&& *final(grpc_address) == *old(grpc_address)
                &&& answer.messages@.len() == 0
            },
        },
{
    match address {
        Some(a) => {
            set_once(grpc_address, a);
            Answer { ok: true, messages: one_message("ios: gRPC address set") }
        },
        None => Answer { ok: false, messages: Vec::new() },
    }
}

/// Sets the address that is mined to. `address` is none if it could not be decoded.
pub fn keryx_miner_set_mining_address(
    mining_address: &mut Option<String>,
    address: Option<String>,
) -> (ok: bool)
    ensures
        ok == address is Some,
        match address {
            Some(a) => *final(mining_address) == first_value(*old(mining_address), a),
            None => *final(mining_address) == *old(mining_address),
        },
{
    match address {
        Some(a) => {
            set_once(mining_address, a);
            true
        },
        None => false,
    }
}

/// Records the mining model once its weights are there. `model_id` is none if there is no model to
/// mine with, and `gguf_path` if its weights could not be had.
pub fn ensure_mining_model_ready(
    tier: &mut Option<MiningTier>,
    model_id: Option<[u8; 32]>,
    gguf_path: Option<String>,
) -> (ready: bool)
    ensures
        ready == (model_id is Some && gguf_path is Some),
        ready ==> *final(tier) == first_value(*old(tier), (model_id->0, gguf_path->0)),
        !ready ==> *final(tier) == *old(tier),
{
    match model_id {
        Some(id) => match gguf_path {
            Some(path) => {
                set_mining_tier(tier, id, path);
                true
            },
            None => false,
        },
        None => false,
    }
}

/// A share in hundredths of a percent, as a percentage with two decimals.
pub open spec fn percent_text(p: nat) -> Seq<char> {
    decimal(p / 100) + seq!['.', digit(p % 100 / 10), digit(p % 10)]
}

/// Writes a share behind a text.
pub fn push_percent(s: &mut String, p: u16)
    ensures
        final(s)@ == old(s)@ + percent_text(p as nat),
{
    push_decimal(s, (p / 100) as u64);
    s.push('.');
    push_decimal(s, (p % 100 / 10) as u64);
    push_decimal(s, (p % 10) as u64);
    assert(s@ =~= old(s)@ + percent_text(p as nat));
}

/// What mining is started with.
pub struct StartJob {
    pub grpc_address: String,
    pub mining_address: String,
    pub messages: Vec<String>,
}

/// The message that says what share goes to the development fund.
pub open spec fn devfund_message() -> Seq<char> {
    "ios: devfund enabled, mining "@ + percent_text(DEVFUND_PERCENT as nat) + "% of the time to "@
        + DEVFUND_ADDRESS@
}

/// Starts mining, unless it is running or no node is set. Once this was called the miner counts
/// as running.
pub fn keryx_miner_start(
    running: &mut bool,
    grpc_address: &Option<String>,
    mining_address: &Option<String>,
) -> (r: Option<StartJob>)
    ensures
        *final(running),
        r is Some <==> !*old(running) && grpc_address is Some,
        r matches Some(job) ==> {
            &&& job.grpc_address@ == grpc_address->0@
            &&& job.mining_address@ == (match mining_address {
                Some(a) => a@,
                None => DEFAULT_MINING_ADDRESS@,
            })
            &&& views(job.messages@) == seq!["ios: starting mining runtime…"@, devfund_message()]
        },
{
    let was_running: bool = *running;
    *running = true;
    if was_running {
        return None;
    }
    match grpc_address {
        Some(address) => {
            let mining: String = match mining_address {
                Some(a) => a.clone(),
                None => DEFAULT_MINING_ADDRESS.to_owned(),
            };
            let mut messages: Vec<String> = one_message("ios: starting mining runtime…");
            let mut share: String = "ios: devfund enabled, mining ".to_owned();
            push_percent(&mut share, DEVFUND_PERCENT);
            share.append("% of the time to ");
            share.append(DEVFUND_ADDRESS);
            let ghost first = messages@;
            messages.push(share);
            assert(views(messages@) =~= views(first).push(share@));
            Some(StartJob { grpc_address: address.clone(), mining_address: mining, messages })
        },
        None => None,
    }
}

/// Goes on with a start once it is known whether the mining model is there.
pub fn start_with_model(running: &mut bool, model_ready: bool) -> (answer: Answer)
    ensures
        answer.ok == model_ready,
        model_ready ==> *final(running) == *old(running) && answer.messages@.len() == 0,
        !model_ready ==> !*final(running) && views(answer.messages@) == seq![
            "ios: FAILED to download model — cannot mine"@,
        ],
{
    if model_ready {
        Answer { ok: true, messages: Vec::new() }
    } else {
        *running = false;
        Answer { ok: false, messages: one_message("ios: FAILED to download model — cannot mine") }
    }
}

/// How a mining runtime came to its end.
pub enum RuntimeEnd {
    /// It could not be created, for this reason.
    NotCreated(String),
    /// The mining loop is over.
    LoopOver,
}

/// Notes the end of a mining runtime.
pub fn runtime_ended(running: &mut bool, end: &RuntimeEnd) -> (message: String)
    ensures
        !*final(running),
        message@ == (match end {
            RuntimeEnd::NotCreated(e) => "ios: tokio runtime creation failed: "@ + e@,
            RuntimeEnd::LoopOver => "ios: mining loop exited"@,
        }),
{
    *running = false;
    match end {
        RuntimeEnd::NotCreated(e) => {
            let mut message: String = "ios: tokio runtime creation failed: ".to_owned();
            message.append(e.as_str());
            message
        },
        RuntimeEnd::LoopOver => "ios: mining loop exited".to_owned(),
    }
}

/// Stops mining.
pub fn keryx_miner_stop(running: &mut bool) -> (message: String)
    ensures
        !*final(running),
        message@ == "ios: stopping miner…"@,
{
    *running = false;
    "ios: stopping miner…".to_owned()
}

/// The last lines of a log.
pub open spec fn last_lines(all: Seq<Seq<char>>) -> Seq<Seq<char>> {
    if all.len() > STATUS_LINES {
        all.skip(all.len() - STATUS_LINES)
    } else {
        all
    }
}

/// What stands before the log's lines in a status.
pub open spec fn status_head(running: bool, nonces: u64) -> Seq<char> {
    "{\"running\":"@ + (if running {
        "true"@
    } else {
        "false"@
    }) + ",\"nonces_found\":"@ + decimal(nonces as nat) + ",\"log_lines\":["@
}

/// A status as JSON.
pub open spec fn status_json(running: bool, nonces: u64, log: Seq<char>) -> Seq<char> {
    status_head(running, nonces) + quoted_list(last_lines(lines_of(log))) + "]}"@
}

/// The lines of the log can be read back from a status, whatever they hold.
pub proof fn law_status_lines_can_be_read(running: bool, nonces: u64, log: Seq<char>)
    requires
        lines_of(log).len() > 0,
    ensures
        read_quoted_list(
            status_json(running, nonces, log).skip(status_head(running, nonces).len() as int),
        ) == Some((last_lines(lines_of(log)), "]}"@)),
{
    reveal_strlit("]}");
    let list = last_lines(lines_of(log));
    law_quoted_list_is_reversible(list, "]}"@);
    assert(status_json(running, nonces, log).skip(status_head(running, nonces).len() as int)
        =~= quoted_list(list) + "]}"@);
}

/// Whether every message in a log is complete.
pub open spec fn is_complete(log: Seq<char>) -> bool {
    log.len() == 0 || log.last() == '\n'
}

/// A status shows the message that was logged last as its last line, if the message is one line
/// and fits into what a cut leaves of the log. Logging keeps every message complete.
pub proof fn law_status_shows_last_message(log: Seq<char>, msg: Seq<char>)
    requires
        is_complete(log),
        can_take(log, msg),
        !msg.contains('\n'),
        encode_utf8(msg.push('\n')).len() <= LOG_KEPT,
    ensures
        is_complete(log_after(log, msg)),
        last_lines(lines_of(log_after(log, msg))).len() > 0,
        last_lines(lines_of(log_after(log, msg))).last() == strip_return(msg),
{
    let line = msg.push('\n');
    let kept = log_after(log, msg);
    let whole = with_message(log, msg);
    law_log(log, msg);
    let lost = choose|front: Seq<char>| whole == #[trigger] (front + kept);
    let before = choose|front: Seq<char>| kept == #[trigger] (front + line);
    assert(whole =~= log + line);
    assert(kept.last() == line.last());
    assert(is_complete(before)) by {
        if before.len() > 0 {
            assert(lost.len() + before.len() == log.len());
            let i = before.len() - 1;
            assert(whole[lost.len() + i] == before[i]);
            assert(whole[lost.len() + i] == log[lost.len() + i]);
        }
    }
    law_added_line_is_last(before, msg);
}

/// Writes texts in quotation marks, with commas between them, behind a text.
fn push_quoted_list(out: &mut String, v: &Vec<String>, from: usize)
    requires
        from <= v@.len(),
    ensures
        final(out)@ == old(out)@ + quoted_list(views(v@).skip(from as int)),
{
    let ghost list = views(v@).skip(from as int);
    let mut i: usize = from;
    assert(old(out)@ =~= old(out)@ + quoted_list(list.take(0)));
    while i < v.len()
        invariant
            from <= i <= v@.len(),
            list == views(v@).skip(from as int),
            out@ == old(out)@ + quoted_list(list.take(i - from)),
        decreases v@.len() - i,
    {
        let ghost k = i - from;
        proof {
            assert(list.take(k + 1).drop_last() =~= list.take(k));
            assert(list.take(k + 1).last() == v@[i as int]@);
        }
        if i > from {
            out.push(',');
        }
        push_quoted(out, v[i].as_str());
        assert(out@ =~= old(out)@ + quoted_list(list.take(k + 1)));
        i = i + 1;
    }
    assert(list.take(v@.len() - from) =~= list);
}

/// The status that the app is shown. Where the log holds a NUL character, which the app's strings
/// cannot, it is empty.
pub fn keryx_miner_status(running: bool, nonces: u64, log: &str) -> (json: String)
    ensures
        json@ == (if status_json(running, nonces, log@).contains('\0') {
            Seq::empty()
        } else {
            status_json(running, nonces, log@)
        }),
{
    let all: Vec<String> = lines(log);
    let from: usize = if all.len() > STATUS_LINES {
        all.len() - STATUS_LINES
    } else {
        0
    };
    assert(views(all@).skip(from as int) =~= last_lines(lines_of(log@)));
    let mut json: String = "{\"running\":".to_owned();
    json.append(
        if running {
            "true"
        } else {
            "false"
        },
    );
    json.append(",\"nonces_found\":");
    push_decimal(&mut json, nonces);
    json.append(",\"log_lines\":[");
    push_quoted_list(&mut json, &all, from);
    json.append("]}");
    if has_nul(json.as_str()) {
        return String::new();
    }
    json
}

/// Whether a text holds a NUL character.
fn has_nul(s: &str) -> (r: bool)
    ensures
        r == s@.contains('\0'),
{
    let v: Vec<char> = crate::text::chars_of(s);
    let mut i: usize = 0;
    while i < v.len()
        invariant
            i <= v@.len(),
            v@ == s@,
            forall|j: int| 0 <= j < i ==> #[trigger] s@[j] != '\0',
        decreases v@.len() - i,
    {
        if v[i] == '\0' {
            assert(s@[i as int] == '\0');
            return true;
        }
        i = i + 1;
    }
    false
}

/// A share is written with a point before its last two digits: without the point, the digits stand
/// for the share itself.
pub proof fn law_percent_text(p: nat)
    ensures
        ({
            let s = percent_text(p);
            let n = s.len();
            &&& n >= 4
            &&& s[n - 3] == '.'
            &&& number_of(s.take(n - 3) + s.skip(n - 2)) == p
            &&& forall|i: int| 0 <= i < n && i != n - 3 ==> '0' <= #[trigger] s[i] <= '9'
            &&& s[0] == '0' ==> n == 4
        }),
{
    let s = percent_text(p);
    let n = s.len();
    let whole = decimal(p / 100);
    law_decimal(p / 100);
    let digits = s.take(n - 3) + s.skip(n - 2);
    assert(s.take(n - 3) =~= whole);
    assert(digits.drop_last().drop_last() =~= whole);
    reveal_with_fuel(number_of, 3);
    assert(number_of(digits) == 10 * (10 * number_of(whole) + p % 100 / 10) + p % 10);
    assert forall|i: int| 0 <= i < n && i != n - 3 implies '0' <= #[trigger] s[i] <= '9' by {
        if i < n - 3 {
            assert(s[i] == whole[i]);
        }
    }
    assert(s[0] == whole[0]);
}

/// The share that is announced is 2.00 percent.
pub proof fn law_announced_share()
    ensures
        devfund_message() == "ios: devfund enabled, mining "@ + "2.00"@ + "% of the time to "@
            + "keryx:qpcptntu45n0xtyq60apnwnhpkta0ujzt5sy3uk5v6nrjvxlqhamjyc882jj3"@,
{
    reveal_strlit("2.00");
    assert(decimal(2) =~= seq!['2']);
    assert(percent_text(200) =~= "2.00"@);
}

/// A status shows the end of the log: as many lines as there are, and twenty at most.
pub proof fn law_last_lines(before: Seq<Seq<char>>, end: Seq<Seq<char>>)
    ensures
        before.len() == 0 && end.len() <= 20 ==> last_lines(before + end) == end,
        end.len() == 20 ==> last_lines(before + end) == end,
{
    if end.len() == 20 || (before.len() == 0 && end.len() <= 20) {
        assert(last_lines(before + end) =~= end);
    }
}

/// A status says whether the miner is running and how many nonces were found, and two that differ
/// in either differ.
pub proof fn law_status_head(running: bool, n: u64, m: u64)
    ensures
        status_head(true, n) == "{\"running\":true,\"nonces_found\":"@ + decimal(n as nat)
            + ",\"log_lines\":["@,
        status_head(false, n) == "{\"running\":false,\"nonces_found\":"@ + decimal(n as nat)
            + ",\"log_lines\":["@,
        status_head(true, n) != status_head(false, m),
        n != m ==> status_head(running, n) != status_head(running, m),
{
    reveal_strlit("{\"running\":true,\"nonces_found\":");
    reveal_strlit("{\"running\":false,\"nonces_found\":");
    reveal_strlit("{\"running\":");
    reveal_strlit("true");
    reveal_strlit("false");
    reveal_strlit(",\"nonces_found\":");
    let on = "{\"running\":true,\"nonces_found\":"@;
    let off = "{\"running\":false,\"nonces_found\":"@;
    assert("{\"running\":"@ + "true"@ + ",\"nonces_found\":"@ =~= on);
    assert("{\"running\":"@ + "false"@ + ",\"nonces_found\":"@ =~= off);
    assert(status_head(true, n)[11] == on[11]);
    assert(status_head(false, m)[11] == off[11]);
    if n != m {
        law_decimals_differ(on, n as nat, m as nat, ",\"log_lines\":["@);
        law_decimals_differ(off, n as nat, m as nat, ",\"log_lines\":["@);
    }
}

/// A status is its head, the last lines of the log in quotation marks, and a closing bracket and
/// brace; the models are in `keryx-models`, and a miner without an address mines to
/// `keryx:ios:miner`.
pub proof fn law_status_parts(running: bool, nonces: u64, log: Seq<char>)
    ensures
        status_json(running, nonces, log) == status_head(running, nonces) + quoted_list(
            last_lines(lines_of(log)),
        ) + seq![']', '}'],
        MODELS_DIR@ == "keryx-models"@,
        DEFAULT_MINING_ADDRESS@ == "keryx:ios:miner"@,
{
    reveal_strlit("]}");
    assert("]}"@ =~= seq![']', '}']);
}

} // verus!
