//! The reporting window of the savings report: `90m`, `24h`, `7d`.
use crate::replay::{decimal_u64, parse_u64};
use crate::text::{concat_chars, from_chars, literal_chars, slice_chars, to_chars, trim_chars, trimmed};
use vstd::prelude::*;

verus! {

/// Milliseconds in one unit of a window: minutes, hours or days.
pub open spec fn unit_ms(u: char) -> Option<nat> {
    if u == 'm' {
        Some(60_000)
    } else if u == 'h' {
        Some(3_600_000)
    } else if u == 'd' {
        Some(86_400_000)
    } else {
        None
    }
}

/// The number of a window: the trimmed text without its last character.
pub open spec fn window_number(t: Seq<char>) -> Seq<char> {
    if t.len() == 0 {
        t
    } else {
        t.drop_last()
    }
}

/// The text splits before its last character: that character is one byte
/// long, or the trimmed text is empty.
pub open spec fn window_splits(s: Seq<char>) -> bool {
    let t = trimmed(s);
    t.len() == 0 || (t.last() as u32) < 0x80
}

/// What a window reads as: its length in milliseconds, or the message that
/// rejects it. The number is read first; a unit other than `m`, `h` or `d`
/// gets a message with an example.
pub open spec fn window_ms(s: Seq<char>) -> Result<nat, Seq<char>> {
    let t = trimmed(s);
    match decimal_u64(window_number(t)) {
        None => Err("invalid window '"@ + t + "'"@),
        Some(n) => {
            if t.len() > 0 && unit_ms(t.last()) is Some {
                Ok((n * unit_ms(t.last()).unwrap()) as nat)
            } else {
                Err("invalid window '"@ + t + "' (use e.g. 90m, 24h, 7d)"@)
            }
        },
    }
}

/// Parses a window such as `90m`, `24h` or `7d` into milliseconds.
/// Text whose last character is more than one byte long, and a window whose
/// length overflows `u64`, are left out: there the plain split and multiply
/// would panic.
pub fn parse_window(s: &str) -> (r: Result<u64, String>)
    requires
        window_splits(s@),
        window_ms(s@) matches Ok(v) ==> v <= u64::MAX,
    ensures
        match r {
            Ok(v) => window_ms(s@) == Ok::<nat, Seq<char>>(v as nat),
            Err(m) => window_ms(s@) == Err::<nat, Seq<char>>(m@),
        },
{
    let chars = to_chars(s);
    let t = trim_chars(&chars);
    let num_len: usize = if t.len() == 0 {
        0
    } else {
        t.len() - 1
    };
    let digits = slice_chars(&t, 0, num_len);
    let num = from_chars(digits.as_slice());
    proof {
        assert(num@ =~= window_number(t@));
    }
    match parse_u64(num.as_str()) {
        None => {
            let head = literal_chars("invalid window '");
            let tail = literal_chars("'");
            let msg = concat_chars(&concat_chars(&head, &t), &tail);
            Err(from_chars(msg.as_slice()))
        },
        Some(n) => {
            let unit: u64 = if t.len() == 0 {
                0
            } else if t[num_len] == 'm' {
                60_000
            } else if t[num_len] == 'h' {
                3_600_000
            } else if t[num_len] == 'd' {
                86_400_000
            } else {
                0
            };
            if unit == 0 {
                let head = literal_chars("invalid window '");
                let tail = literal_chars("' (use e.g. 90m, 24h, 7d)");
                let msg = concat_chars(&concat_chars(&head, &t), &tail);
                Err(from_chars(msg.as_slice()))
            } else {
                proof {
                    assert(t@.last() == t@[num_len as int]);
                }
                Ok(n * unit)
            }
        },
    }
}

} // verus!
