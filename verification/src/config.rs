//! What the command line and the environment say.

use crate::parking::Kind;
use vstd::prelude::*;
use vstd::utf8::encode_utf8;

verus! {

/// The port that is served.
pub const PORT: u16 = 50051;

/// How many connections may wait to be accepted.
pub const BACKLOG: i32 = 8192;

/// The strategy that a mode names; none is named if there is no such mode.
pub open spec fn mode_named(mode: Seq<char>) -> Option<Kind> {
    if mode == "epoll"@ {
        Some(Kind::Epoll)
    } else if mode == "async"@ {
        Some(Kind::Async)
    } else if mode == "uringpoll"@ {
        Some(Kind::UringPoll)
    } else if mode == "hybrid"@ {
        Some(Kind::Hybrid)
    } else {
        None
    }
}

/// The strategy for the mode on the command line; epoll if there is none.
pub fn strategy(mode: Option<String>) -> (kind: Option<Kind>)
    ensures
        kind == match mode {
            None => Some(Kind::Epoll),
            Some(m) => mode_named(m@),
        },
{
    match mode {
        None => Some(Kind::Epoll),
        Some(m) => if m == "epoll".to_owned() {
            Some(Kind::Epoll)
        } else if m == "async".to_owned() {
            Some(Kind::Async)
        } else if m == "uringpoll".to_owned() {
            Some(Kind::UringPoll)
        } else if m == "hybrid".to_owned() {
            Some(Kind::Hybrid)
        } else {
            None
        },
    }
}

/// Whether `s` consists of the digits 0 to 9.
pub open spec fn all_digits(s: Seq<u8>) -> bool {
    forall|i: int| 0 <= i < s.len() ==> 48 <= #[trigger] s[i] <= 57
}

/// The number that the digits of `s` spell.
pub open spec fn digits_value(s: Seq<u8>) -> nat
    decreases s.len(),
{
    if s.len() == 0 {
        0
    } else {
        digits_value(s.drop_last()) * 10 + (s.last() - 48) as nat
    }
}

/// The number in `s`: digits, which a plus sign may precede.
pub open spec fn decimal(s: Seq<u8>) -> Option<nat> {
    let digits = if s.len() > 0 && s[0] == 43 {
        s.skip(1)
    } else {
        s
    };
    if digits.len() > 0 && all_digits(digits) {
        Some(digits_value(digits))
    } else {
        None
    }
}

/// Reads the digits of `s` from position `from` on.
fn read_digits(s: &[u8], from: usize) -> (n: Option<usize>)
    requires
        from < s@.len(),
    ensures
        ({
            let digits = s@.skip(from as int);
            match n {
                Some(n) => all_digits(digits) && n == digits_value(digits),
                None => !all_digits(digits) || digits_value(digits) > usize::MAX,
            }
        }),
{
    let ghost digits = s@.skip(from as int);
    let len: usize = s.len();
    let mut n: usize = 0;
    let mut small: bool = true;
    let mut at: usize = from;
    while at < len
        invariant
            from <= at <= len,
            len == s@.len(),
            digits == s@.skip(from as int),
            all_digits(digits.take(at - from)),
            small ==> n == digits_value(digits.take(at - from)),
            !small ==> digits_value(digits.take(at - from)) > usize::MAX,
        decreases len - at,
    {
        let octet: u8 = s[at];
        let ghost seen = digits.take(at - from);
        let ghost more = digits.take(at - from + 1);
        assert(octet == digits[at - from]);
        assert(more.drop_last() =~= seen);
        if octet < 48 || octet > 57 {
            assert(!all_digits(digits));
            return None;
        }
        assert(all_digits(more)) by {
            assert forall|i: int| 0 <= i < more.len() implies 48 <= #[trigger] more[i] <= 57 by {
                if i < seen.len() {
                    assert(more[i] == seen[i]);
                }
            }
        }
        if small {
            let digit: usize = (octet - 48) as usize;
            match n.checked_mul(10) {
                None => {
                    small = false;
                },
                Some(tens) => match tens.checked_add(digit) {
                    None => {
                        small = false;
                    },
                    Some(next) => {
                        n = next;
                    },
                },
            }
        }
        at = at + 1;
    }
    assert(digits.take(len - from) =~= digits);
    if small {
        Some(n)
    } else {
        None
    }
}

/// Reads a number.
pub fn parse_count(text: &str) -> (n: Option<usize>)
    ensures
        match n {
            Some(n) => decimal(encode_utf8(text@)) == Some(n as nat),
            None => decimal(encode_utf8(text@)) matches Some(v) ==> v > usize::MAX,
        },
{
    let s = text.as_bytes();
    if s.len() == 0 {
        return None;
    }
    if s[0] == 43 {
        if s.len() == 1 {
            return None;
        }
        read_digits(s, 1)
    } else {
        assert(s@.skip(0) =~= s@);
        read_digits(s, 0)
    }
}

/// The number of workers: what the environment asks for, if it asks for a number, and else
/// one for each of the available cores.
pub fn worker_count(asked: Option<String>, available: usize) -> (n: usize)
    ensures
        n == match asked {
            None => available as nat,
            Some(text) => match decimal(encode_utf8(text@)) {
                Some(v) if v <= usize::MAX => v,
                _ => available as nat,
            },
        },
{
    match asked {
        None => available,
        Some(text) => match parse_count(text.as_str()) {
            Some(n) => n,
            None => available,
        },
    }
}

/// Each strategy has one name, and no other text names one.
pub proof fn law_names_of_strategies(mode: Seq<char>)
    ensures
        mode_named(mode) == Some(Kind::Epoll) <==> mode == "epoll"@,
        mode_named(mode) == Some(Kind::Async) <==> mode == "async"@,
        mode_named(mode) == Some(Kind::UringPoll) <==> mode == "uringpoll"@,
        mode_named(mode) == Some(Kind::Hybrid) <==> mode == "hybrid"@,
{
    reveal_strlit("epoll");
    reveal_strlit("async");
    reveal_strlit("uringpoll");
    reveal_strlit("hybrid");
    assert("epoll"@[0] != "async"@[0]);
    assert("epoll"@[0] != "uringpoll"@[0]);
    assert("epoll"@[0] != "hybrid"@[0]);
    assert("async"@[0] != "uringpoll"@[0]);
    assert("async"@[0] != "hybrid"@[0]);
    assert("uringpoll"@[0] != "hybrid"@[0]);
}

/// Numbers are read digit by digit, from the left: another digit makes ten times as much, and
/// the digit.
pub proof fn law_another_digit(s: Seq<u8>, digit: u8)
    requires
        48 <= digit <= 57,
    ensures
        s.len() == 0 ==> decimal(s.push(digit)) == Some((digit - 48) as nat),
        decimal(s) matches Some(v) ==> decimal(s.push(digit)) == Some(
            (10 * v + (digit - 48)) as nat,
        ),
        s.len() > 1 && decimal(s) is None ==> decimal(s.push(digit)) is None,
{
    let t = s.push(digit);
    let signed = s.len() > 0 && s[0] == 43;
    let old = if signed {
        s.skip(1)
    } else {
        s
    };
    if s.len() > 0 {
        assert(t[0] == s[0]);
        assert(s.skip(1).push(digit) =~= t.skip(1));
    }
    let new = old.push(digit);
    assert(new.drop_last() =~= old);
    assert(new.last() == digit);
    if all_digits(new) {
        assert forall|i: int| 0 <= i < old.len() implies 48 <= #[trigger] old[i] <= 57 by {
            assert(new[i] == old[i]);
        }
    }
    if old.len() == 0 {
        assert(digits_value(old) == 0);
    }
}

/// A plus sign may precede a number, once, and nothing else but digits stands in one.
pub proof fn law_only_digits(s: Seq<u8>, i: int)
    ensures
        decimal(Seq::empty()) is None,
        decimal(seq![43u8]) is None,
        s.len() > 0 && s[0] != 43 ==> decimal(seq![43u8] + s) == decimal(s),
        0 < i < s.len() && !(48 <= s[i] <= 57) ==> decimal(s) is None,
        s.len() > 0 && s[0] != 43 && !(48 <= s[0] <= 57) ==> decimal(s) is None,
{
    let t = seq![43u8] + s;
    assert(t.skip(1) =~= s);
    assert(seq![43u8].skip(1).len() == 0);
    if 0 < i < s.len() {
        assert(s.skip(1)[i - 1] == s[i]);
    }
}

} // verus!
