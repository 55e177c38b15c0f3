//! The log that a status report shows: the latest messages, one or more lines each.
use vstd::prelude::*;
use vstd::string::*;
use vstd::utf8::*;

use crate::text::contains;
#[allow(unused_imports)]
use crate::text::{law_occurs, law_occurs_somewhere, occurs};

verus! {

/// A log that is longer than this, in bytes, is cut.
pub const LOG_LIMIT: usize = 65536;

/// What a cut leaves of a log, in bytes.
pub const LOG_KEPT: usize = 32768;

/// A log with a message behind it.
pub open spec fn with_message(log: Seq<char>, msg: Seq<char>) -> Seq<char> {
    (log + msg).push('\n')
}

/// Whether a log of the given bytes is too long.
pub open spec fn too_long(bytes: Seq<u8>) -> bool {
    bytes.len() > LOG_LIMIT
}

/// Whether the log can take a message: if it has to be cut, the cut does not go through the middle
/// of a character.
pub open spec fn can_take(log: Seq<char>, msg: Seq<char>) -> bool {
    let bytes = encode_utf8(with_message(log, msg));
    too_long(bytes) ==> is_char_boundary(bytes, bytes.len() - LOG_KEPT)
}

/// The log behind a message: all of it, or its last bytes if it is too long.
pub open spec fn log_after(log: Seq<char>, msg: Seq<char>) -> Seq<char> {
    let bytes = encode_utf8(with_message(log, msg));
    if too_long(bytes) {
        decode_utf8(bytes.skip(bytes.len() - LOG_KEPT))
    } else {
        with_message(log, msg)
    }
}

/// Puts a message behind a log.
fn push_message(log: &mut String, msg: &str)
    ensures
        final(log)@ == with_message(old(log)@, msg@),
{
    log.append(msg);
    log.push('\n');
}

/// Whether the log can take a message.
pub fn takes_message(log: &str, msg: &str) -> (r: bool)
    ensures
        r == can_take(log@, msg@),
{
    let mut text: String = log.to_owned();
    push_message(&mut text, msg);
    let len: usize = text.as_str().as_bytes().len();
    len <= LOG_LIMIT || text.as_str().is_char_boundary(len - LOG_KEPT)
}

/// Logs a message.
pub fn log_msg(log: &mut String, msg: &str)
    requires
        can_take(old(log)@, msg@),
    ensures
        final(log)@ == log_after(old(log)@, msg@),
        ends_in((old(log)@ + msg@).push('\n'), final(log)@),
        ({
            let before = encode_utf8((old(log)@ + msg@).push('\n')).len();
            encode_utf8(final(log)@).len() == if before > 65536 {
                32768
            } else {
                before
            }
        }),
{
    proof {
        law_log(log@, msg@);
    }
    push_message(log, msg);
    let len: usize = log.as_str().as_bytes().len();
    if len > LOG_LIMIT {
        let ghost bytes = encode_utf8(log@);
        let kept: String = log.as_str().split_at(len - LOG_KEPT).1.to_owned();
        proof {
            assert(encode_utf8(kept@) =~= bytes.skip(len - LOG_KEPT));
            encode_utf8_decode_utf8(kept@);
        }
        *log = kept;
    }
}

/// The encoding of two texts is the encoding of the one, and behind it that of the other.
proof fn lemma_encode_concat(a: Seq<char>, b: Seq<char>)
    ensures
        encode_utf8(a + b) == encode_utf8(a) + encode_utf8(b),
    decreases a.len(),
{
    if a.len() == 0 {
        assert(a + b =~= b);
        assert(encode_utf8(a) + encode_utf8(b) =~= encode_utf8(b));
    } else {
        lemma_encode_concat(a.drop_first(), b);
        assert((a + b).drop_first() =~= a.drop_first() + b);
        assert(encode_utf8(a + b) =~= encode_utf8(a) + encode_utf8(b));
    }
}

/// A character takes a byte at least.
proof fn lemma_encode_grows(s: Seq<char>)
    ensures
        encode_utf8(s).len() >= s.len(),
    decreases s.len(),
{
    if s.len() > 0 {
        lemma_encode_grows(s.drop_first());
    }
}

/// Whether a text ends in another.
pub open spec fn ends_in(s: Seq<char>, end: Seq<char>) -> bool {
    exists|front: Seq<char>| s == #[trigger] (front + end)
}

/// Whatever is logged, the log does not grow beyond its limit: all of it is kept up to 65536 bytes,
/// and 32768 bytes of a longer one. It ends as it would if it were never cut, and a message that
/// fits into what a cut leaves is at its end.
pub proof fn law_log(log: Seq<char>, msg: Seq<char>)
    requires
        can_take(log, msg),
    ensures
        encode_utf8(log_after(log, msg)).len() <= LOG_LIMIT,
        ({
            let before = encode_utf8((log + msg).push('\n')).len();
            encode_utf8(log_after(log, msg)).len() == if before > 65536 {
                32768
            } else {
                before
            }
        }),
        ends_in(with_message(log, msg), log_after(log, msg)),
        encode_utf8(msg.push('\n')).len() <= LOG_KEPT ==> ends_in(
            log_after(log, msg),
            msg.push('\n'),
        ),
{
    let whole = with_message(log, msg);
    let line = msg.push('\n');
    let bytes = encode_utf8(whole);
    let kept = log_after(log, msg);
    assert(whole =~= log + line);
    encode_utf8_valid_utf8(whole);
    encode_utf8_decode_utf8(whole);
    if too_long(bytes) {
        let cut = bytes.len() - LOG_KEPT;
        assert(bytes.skip(cut) =~= bytes.subrange(cut, bytes.len() as int));
        valid_utf8_split(bytes, cut);
        decode_utf8_split(bytes, cut);
        decode_utf8_encode_utf8(bytes.skip(cut));
        let front = decode_utf8(bytes.subrange(0, cut));
        assert(whole == front + kept);
        assert(encode_utf8(kept).len() == LOG_KEPT);
        if encode_utf8(line).len() <= LOG_KEPT {
            if kept.len() < line.len() {
                let lost = line.take(line.len() - kept.len());
                assert(line =~= lost + kept) by {
                    assert forall|i: int| 0 <= i < kept.len() implies kept[i] == line[line.len()
                        - kept.len() + i] by {
                        assert(whole[whole.len() - kept.len() + i] == kept[i]);
                        assert(whole[log.len() + (line.len() - kept.len() + i)] == line[line.len()
                            - kept.len() + i]);
                    }
                }
                lemma_encode_concat(lost, kept);
                lemma_encode_grows(lost);
                assert(false);
            }
            let before = kept.take(kept.len() - line.len());
            assert(kept =~= before + line) by {
                assert forall|i: int| 0 <= i < line.len() implies line[i] == kept[kept.len()
                    - line.len() + i] by {
                    assert(whole[log.len() + i] == line[i]);
                    assert(whole[front.len() + (kept.len() - line.len() + i)] == kept[kept.len()
                        - line.len() + i]);
                }
            }
        }
    } else {
        assert(whole =~= Seq::<char>::empty() + whole);
        assert(whole == log + line);
    }
}

/// How grave a log record is.
#[derive(Clone, Copy, PartialEq, Eq, Structural, Debug)]
pub enum LogLevel {
    Error,
    Warn,
    Info,
    Debug,
    Trace,
}

impl LogLevel {
    /// The level's name.
    pub open spec fn spec_name(self) -> Seq<char> {
        match self {
            LogLevel::Error => "ERROR"@,
            LogLevel::Warn => "WARN"@,
            LogLevel::Info => "INFO"@,
            LogLevel::Debug => "DEBUG"@,
            LogLevel::Trace => "TRACE"@,
        }
    }

    /// The level's name.
    pub fn name(self) -> (s: &'static str)
        ensures
            s@ == self.spec_name(),
    {
        match self {
            LogLevel::Error => "ERROR",
            LogLevel::Warn => "WARN",
            LogLevel::Info => "INFO",
            LogLevel::Debug => "DEBUG",
            LogLevel::Trace => "TRACE",
        }
    }
}

/// Whether a record belongs into the log: warnings and errors always do, and others if they come
/// from a module that has to do with mining.
pub open spec fn belongs(level: LogLevel, target: Seq<char>) -> bool {
    ||| level == LogLevel::Error
    ||| level == LogLevel::Warn
    ||| occurs("pom"@, target)
    ||| occurs("slm"@, target)
    ||| occurs("keryx"@, target)
}

/// Whether a record belongs into the log.
pub fn enabled(level: LogLevel, target: &str) -> (r: bool)
    ensures
        r == belongs(level, target@),
{
    level == LogLevel::Error || level == LogLevel::Warn || contains(target, "pom") || contains(
        target,
        "slm",
    ) || contains(target, "keryx")
}

/// The message that a record is logged as, if it belongs into the log.
pub fn record_message(level: LogLevel, target: &str, args: &str) -> (r: Option<String>)
    ensures
        match r {
            Some(msg) => {
                &&& belongs(level, target@)
                &&& msg@ == "["@ + level.spec_name() + "] "@ + args@
            },
            None => !belongs(level, target@),
        },
{
    if !enabled(level, target) {
        return None;
    }
    let mut msg: String = "[".to_owned();
    msg.append(level.name());
    msg.append("] ");
    msg.append(args);
    Some(msg)
}

/// Warnings and errors are always logged, and everything else exactly if `pom`, `slm` or `keryx`
/// stands somewhere in the module that it comes from. A level goes by its name.
pub proof fn law_records(
    level: LogLevel,
    target: Seq<char>,
    before: Seq<char>,
    behind: Seq<char>,
)
    ensures
        belongs(LogLevel::Error, target) && belongs(LogLevel::Warn, target),
        belongs(level, before + "pom"@ + behind),
        belongs(level, before + "slm"@ + behind),
        belongs(level, before + "keryx"@ + behind),
        belongs(level, target) && level != LogLevel::Error && level != LogLevel::Warn ==> exists|
            a: Seq<char>,
            b: Seq<char>,
        |
            target == #[trigger] (a + "pom"@ + b) || target == a + "slm"@ + b || target == a
                + "keryx"@ + b,
        LogLevel::Error.spec_name() == "ERROR"@,
        LogLevel::Warn.spec_name() == "WARN"@,
        LogLevel::Info.spec_name() == "INFO"@,
        LogLevel::Debug.spec_name() == "DEBUG"@,
        LogLevel::Trace.spec_name() == "TRACE"@,
{
    law_occurs("pom"@, before, behind);
    law_occurs("slm"@, before, behind);
    law_occurs("keryx"@, before, behind);
    if belongs(level, target) && level != LogLevel::Error && level != LogLevel::Warn {
        let word = if occurs("pom"@, target) {
            "pom"@
        } else if occurs("slm"@, target) {
            "slm"@
        } else {
            "keryx"@
        };
        let (a, b) = law_occurs_somewhere(word, target);
        let named = a + "pom"@ + b;
    }
}

/// A log takes every message that leaves it within 65536 bytes, and any other exactly if a character
/// begins 32768 bytes before the end.
pub proof fn law_log_takes(log: Seq<char>, msg: Seq<char>)
    ensures
        ({
            let bytes = encode_utf8((log + msg).push('\n'));
            can_take(log, msg) <==> bytes.len() <= 65536 || is_char_boundary(
                bytes,
                bytes.len() - 32768,
            )
        }),
{
}

} // verus!
