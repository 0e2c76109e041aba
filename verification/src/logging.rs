//! What is written to the log.

use vstd::prelude::*;

use crate::text::{chars_of, decimal, decimal_text, law_decimal, number_of};

verus! {

/// `n` in decimal, with zeros in front up to three digits.
pub open spec fn three_digits(n: nat) -> Seq<char> {
    if n < 10 {
        "00"@ + decimal(n)
    } else if n < 100 {
        "0"@ + decimal(n)
    } else {
        decimal(n)
    }
}

/// A point in time as seconds and milliseconds.
pub open spec fn timestamp_text(seconds: nat, millis: nat) -> Seq<char> {
    decimal(seconds) + "."@ + three_digits(millis)
}

/// A line of the log.
pub open spec fn log_line(
    seconds: nat,
    millis: nat,
    scope: Seq<char>,
    message: Seq<char>,
) -> Seq<char> {
    timestamp_text(seconds, millis) + " ["@ + scope + "] "@ + message
}

/// A point in time, `seconds` and `millis` after the epoch, as text.
pub fn timestamp(seconds: u64, millis: u32) -> (r: String)
    ensures
        r@ == timestamp_text(seconds as nat, millis as nat),
{
    let fraction = decimal_text(millis as u64);
    let padded = if millis < 10 {
        "00".to_string().concat(fraction.as_str())
    } else if millis < 100 {
        "0".to_string().concat(fraction.as_str())
    } else {
        fraction
    };
    decimal_text(seconds).concat(".").concat(padded.as_str())
}

/// The line that `message` from `scope` makes at `seconds` and `millis` after the epoch.
pub fn log_always(seconds: u64, millis: u32, scope: &str, message: &str) -> (r: String)
    ensures
        r@ == log_line(seconds as nat, millis as nat, scope@, message@),
{
    timestamp(seconds, millis).concat(" [").concat(scope).concat("] ").concat(message)
}

/// The line that `message` makes, if the log level is at least the one it requires.
pub fn log(
    log_level: u16,
    required_level: u16,
    seconds: u64,
    millis: u32,
    scope: &str,
    message: &str,
) -> (r: Option<String>)
    ensures
        match r {
            Some(line) => log_level >= required_level && line@ == log_line(
                seconds as nat,
                millis as nat,
                scope@,
                message@,
            ),
            None => log_level < required_level,
        },
{
    if log_level >= required_level {
        Some(log_always(seconds, millis, scope, message))
    } else {
        None
    }
}

/// Text on one line: a bar stands for each line feed, together with the carriage return
/// before it if there is one.
pub open spec fn on_one_line(text: Seq<char>) -> Seq<char>
    decreases text.len(),
{
    if text.len() == 0 {
        seq![]
    } else if text[0] == '\n' {
        " | "@ + on_one_line(text.drop_first())
    } else if text.len() >= 2 && text[0] == '\r' && text[1] == '\n' {
        " | "@ + on_one_line(text.skip(2))
    } else {
        seq![text[0]] + on_one_line(text.drop_first())
    }
}

/// The head of a request on one line.
pub fn head_for_log(request: &str) -> (r: String)
    ensures
        r@ == on_one_line(request@),
{
    let v = chars_of(request);
    let n: usize = v.len();
    let mut out = String::new();
    let mut i: usize = 0;
    assert(v@.skip(0) =~= v@);
    assert(out@ + on_one_line(v@.skip(0)) =~= on_one_line(v@));
    while i < n
        invariant
            n == v@.len(),
            v@ == request@,
            i <= n,
            on_one_line(request@) == out@ + on_one_line(v@.skip(i as int)),
        decreases n - i,
    {
        let ghost before = out@;
        let ghost rest = v@.skip(i as int);
        assert(rest.drop_first() =~= v@.skip(i + 1));
        if v[i] == '\n' {
            out.append(" | ");
            assert(before + (" | "@ + on_one_line(v@.skip(i + 1))) =~= out@ + on_one_line(
                v@.skip(i + 1),
            ));
            i += 1;
        } else if n - i >= 2 && v[i] == '\r' && v[i + 1] == '\n' {
            out.append(" | ");
            assert(rest.skip(2) =~= v@.skip(i + 2));
            assert(before + (" | "@ + on_one_line(v@.skip(i + 2))) =~= out@ + on_one_line(
                v@.skip(i + 2),
            ));
            i += 2;
        } else {
            out.push(v[i]);
            assert(before + (seq![rest[0]] + on_one_line(v@.skip(i + 1))) =~= out@ + on_one_line(
                v@.skip(i + 1),
            ));
            i += 1;
        }
    }
    assert(v@.skip(n as int).len() == 0);
    assert(out@ + Seq::<char>::empty() =~= out@);
    out
}

/// What is written on one line has no line feed in it.
pub proof fn law_one_line_has_no_line_feed(text: Seq<char>)
    ensures
        !on_one_line(text).contains('\n'),
    decreases text.len(),
{
    reveal_strlit(" | ");
    if text.len() > 0 {
        let rest = if text[0] != '\n' && text.len() >= 2 && text[0] == '\r' && text[1] == '\n' {
            text.skip(2)
        } else {
            text.drop_first()
        };
        law_one_line_has_no_line_feed(rest);
        let all = on_one_line(text);
        let tail = on_one_line(rest);
        assert forall|i: int| 0 <= i < all.len() implies all[i] != '\n' by {
            let k = all.len() - tail.len();
            if i >= k {
                assert(all[i] == tail[i - k]);
                assert(tail.contains(tail[i - k]));
            }
        }
    }
}

/// A line has the seconds, a point, the milliseconds as three digits, the scope in brackets
/// and the message.
pub proof fn law_line_shows_time_scope_and_message(
    seconds: nat,
    millis: nat,
    scope: Seq<char>,
    message: Seq<char>,
)
    requires
        millis < 1000,
    ensures
        exists|digits: Seq<char>|
            {
                &&& log_line(seconds, millis, scope, message) == decimal(seconds) + "."@
                    + #[trigger] (digits + " ["@) + scope + "] "@ + message
                &&& digits.len() == 3
                &&& forall|i: int| 0 <= i < 3 ==> '0' <= #[trigger] digits[i] <= '9'
                &&& number_of(digits) == millis
            },
{
    let digits = three_digits(millis);
    reveal_strlit("0");
    reveal_strlit("00");
    reveal_with_fuel(decimal, 4);
    reveal_with_fuel(number_of, 4);
    law_decimal(millis);
    assert(digits.len() == 3);
    let d2 = digits.drop_last();
    let d1 = d2.drop_last();
    assert(d1.drop_last() =~= seq![]);
    assert(number_of(digits) == millis);
    assert(log_line(seconds, millis, scope, message) =~= decimal(seconds) + "."@ + (digits + " ["@)
        + scope + "] "@ + message);
}

/// A line begins with the time it was made at. Milliseconds of three digits or more are shown
/// as they are.
pub proof fn law_line_begins_with_its_time(
    seconds: nat,
    millis: nat,
    scope: Seq<char>,
    message: Seq<char>,
)
    ensures
        log_line(seconds, millis, scope, message) == timestamp_text(seconds, millis) + " ["@ + scope
            + "] "@ + message,
        millis >= 100 ==> timestamp_text(seconds, millis) == decimal(seconds) + "."@ + decimal(
            millis,
        ),
{
}

/// Each line feed becomes a bar, and takes the carriage return before it along; all else
/// stays.
pub proof fn law_line_feeds_become_bars(line: Seq<char>, rest: Seq<char>)
    requires
        !line.contains('\n'),
    ensures
        on_one_line(line) == line,
        on_one_line(line + seq!['\r', '\n'] + rest) == line + " | "@ + on_one_line(rest),
        (line.len() == 0 || line.last() != '\r') ==> on_one_line(line + seq!['\n'] + rest) == line
            + " | "@ + on_one_line(rest),
    decreases line.len(),
{
    let crlf = seq!['\r', '\n'] + rest;
    let lf = seq!['\n'] + rest;
    assert(line + seq!['\r', '\n'] + rest =~= line + crlf);
    assert(line + seq!['\n'] + rest =~= line + lf);
    if line.len() == 0 {
        assert(line + crlf =~= crlf);
        assert(line + lf =~= lf);
        assert(crlf.skip(2) =~= rest);
        assert(lf.drop_first() =~= rest);
        assert(line + " | "@ + on_one_line(rest) =~= " | "@ + on_one_line(rest));
        assert(on_one_line(line) =~= line);
    } else {
        let tail = line.drop_first();
        assert(line.contains(line[0]));
        assert forall|i: int| 0 <= i < tail.len() implies tail[i] != '\n' by {
            assert(line.contains(line[i + 1]));
        }
        law_line_feeds_become_bars(tail, rest);
        if line.len() >= 2 {
            assert(line.contains(line[1]));
        }
        assert(tail + seq!['\r', '\n'] + rest =~= tail + crlf);
        assert(tail + seq!['\n'] + rest =~= tail + lf);
        assert((line + crlf).drop_first() =~= tail + crlf);
        assert((line + lf).drop_first() =~= tail + lf);
        assert((line + crlf)[0] == line[0] && (line + lf)[0] == line[0]);
        if line.len() == 1 {
            assert((line + crlf)[1] == '\r');
        }
        assert(on_one_line(line) =~= line);
        assert(on_one_line(line + crlf) =~= line + " | "@ + on_one_line(rest));
        if line.last() != '\r' {
            assert(tail.len() > 0 ==> tail.last() == line.last());
            if line.len() == 1 {
                assert((line + lf)[1] == '\n');
            }
            assert(on_one_line(line + lf) =~= line + " | "@ + on_one_line(rest));
        }
    }
}

} // verus!
