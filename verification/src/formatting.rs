//! Date, time and phone-number formatting in the Indian conventions.

use vstd::prelude::*;

use crate::text::spec_dec_digits;
use crate::text::spec_dec_padded;
use crate::text::string_push;
use crate::text::u64_to_padded_string;
use crate::text::u64_to_string;

verus! {

use vstd::string::StrSliceExecFns;
use vstd::string::StringExecFns;

/// Supported number formatting systems.
#[derive(Debug, Clone, Copy, PartialEq, Eq, Structural)]
pub enum NumberSystem {
    /// Western grouping, by thousands throughout.
    Western,
    /// Indian grouping, by lakhs and crores.
    Indian,
}

/// A date formatted the Indian way: `DD/MM/YYYY`, each part zero-padded.
pub open spec fn spec_date_indian(year: i32, month: u32, day: u32) -> Seq<char> {
    spec_dec_padded(day as nat, 2) + "/"@ + spec_dec_padded(month as nat, 2) + "/"@ + (if year
        >= 0 {
        spec_dec_padded(year as nat, 4)
    } else {
        "-"@ + spec_dec_padded((-(year as int)) as nat, 3)
    })
}

/// Format a date in Indian style: `DD/MM/YYYY`.
pub fn format_date_indian(year: i32, month: u32, day: u32) -> (r: String)
    ensures
        r@ == spec_date_indian(year, month, day),
{
    let mut out: String = u64_to_padded_string(day as u64, 2);
    out.append("/");
    let m: String = u64_to_padded_string(month as u64, 2);
    out.append(m.as_str());
    out.append("/");
    if year >= 0 {
        let y: String = u64_to_padded_string(year as u64, 4);
        out.append(y.as_str());
    } else {
        out.append("-");
        let mag: i64 = -(year as i64);
        let y: String = u64_to_padded_string(mag as u64, 3);
        out.append(y.as_str());
    }
    out
}

/// A time formatted in the 12-hour convention: `H:MM AM` or `H:MM PM`,
/// with midnight and noon both reading 12.
pub open spec fn spec_time_12h(hour: u32, minute: u32) -> Seq<char> {
    let h12: nat = if hour == 0 {
        12nat
    } else if hour < 12 {
        hour as nat
    } else if hour == 12 {
        12nat
    } else {
        (hour - 12) as nat
    };
    let period: Seq<char> = if hour < 12 {
        " AM"@
    } else {
        " PM"@
    };
    spec_dec_digits(h12) + ":"@ + spec_dec_padded(minute as nat, 2) + period
}

/// Format time in the 12-hour Indian style.
pub fn format_time_12h(hour: u32, minute: u32) -> (r: String)
    ensures
        r@ == spec_time_12h(hour, minute),
{
    let h12: u32 = if hour == 0 {
        12
    } else if hour < 12 {
        hour
    } else if hour == 12 {
        12
    } else {
        hour - 12
    };
    let mut out: String = u64_to_string(h12 as u64);
    out.append(":");
    let m: String = u64_to_padded_string(minute as u64, 2);
    out.append(m.as_str());
    if hour < 12 {
        out.append(" AM");
    } else {
        out.append(" PM");
    }
    out
}

/// The ASCII digits of a text, in order.
pub open spec fn spec_ascii_digits(s: Seq<char>) -> Seq<char> {
    s.filter(|c: char| '0' <= c && c <= '9')
}

/// A phone number formatted the Indian way: ten digits as
/// `+91 XXXXX XXXXX`, accepting a leading zero or country code; anything
/// else is left as it came.
pub open spec fn spec_phone_indian(number: Seq<char>, digits: Seq<char>) -> Seq<char> {
    if digits.len() == 10 {
        "+91 "@ + digits.take(5) + " "@ + digits.skip(5)
    } else if digits.len() == 11 && digits[0] == '0' {
        "+91 "@ + digits.subrange(1, 6) + " "@ + digits.skip(6)
    } else if digits.len() == 12 && digits.take(2) == "91"@ {
        "+91 "@ + digits.subrange(2, 7) + " "@ + digits.skip(7)
    } else {
        number
    }
}

/// Format a phone number in the Indian style.
pub fn format_phone_indian(number: &str) -> (r: String)
    ensures
        r@ == spec_phone_indian(number@, spec_ascii_digits(number@)),
{
    let n: usize = number.unicode_len();
    let mut digits: Vec<char> = Vec::new();
    let mut i: usize = 0;
    while i < n
        invariant
            n == number@.len(),
            0 <= i <= n,
            digits@ =~= number@.take(i as int).filter(|c: char| '0' <= c && c <= '9'),
        decreases n - i,
    {
        proof {
            reveal(Seq::filter);
            assert(number@.take(i + 1).drop_last() =~= number@.take(i as int));
            assert(number@.take(i + 1).last() == number@[i as int]);
        }
        let c: char = number.get_char(i);
        if '0' <= c && c <= '9' {
            digits.push(c);
        }
        i = i + 1;
    }
    proof {
        assert(number@.take(n as int) =~= number@);
    }
    let d: usize = digits.len();
    if d == 10 {
        format_grouped(&digits, 0, 5)
    } else if d == 11 && digits[0] == '0' {
        format_grouped(&digits, 1, 6)
    } else if d == 12 && digits[0] == '9' && digits[1] == '1' {
        proof {
            reveal_strlit("91");
            assert(digits@.take(2) =~= "91"@);
        }
        format_grouped(&digits, 2, 7)
    } else {
        proof {
            if digits@.len() == 12 {
                reveal_strlit("91");
                assert(("91"@).len() == 2);
                if digits@.take(2) == "91"@ {
                    assert(digits@.take(2)[0] == ("91"@)[0]);
                    assert(digits@.take(2)[1] == ("91"@)[1]);
                    assert(digits@[0] == '9' && digits@[1] == '1');
                }
            }
        }
        number.to_owned()
    }
}

/// `+91 ` then the digits from `from` to `mid`, a space, and the rest.
fn format_grouped(digits: &Vec<char>, from: usize, mid: usize) -> (r: String)
    requires
        from <= mid <= digits@.len(),
    ensures
        r@ == "+91 "@ + digits@.subrange(from as int, mid as int) + " "@ + digits@.skip(mid as int),
{
    let mut out: String = String::from_str("+91 ");
    let mut i: usize = from;
    proof {
        assert(out@ =~= "+91 "@ + digits@.subrange(from as int, from as int));
    }
    while i < mid
        invariant
            from <= i <= mid <= digits@.len(),
            out@ =~= "+91 "@ + digits@.subrange(from as int, i as int),
        decreases mid - i,
    {
        proof {
            assert(digits@.subrange(from as int, i + 1) =~= digits@.subrange(
                from as int,
                i as int,
            ).push(digits@[i as int]));
        }
        string_push(&mut out, digits[i]);
        i = i + 1;
    }
    string_push(&mut out, ' ');
    let n: usize = digits.len();
    let mut j: usize = mid;
    proof {
        reveal_strlit(" ");
        assert(out@ =~= "+91 "@ + digits@.subrange(from as int, mid as int) + " "@
            + digits@.subrange(mid as int, mid as int));
    }
    while j < n
        invariant
            mid <= j <= n,
            n == digits@.len(),
            out@ =~= "+91 "@ + digits@.subrange(from as int, mid as int) + " "@ + digits@.subrange(
                mid as int,
                j as int,
            ),
        decreases n - j,
    {
        proof {
            assert(digits@.subrange(mid as int, j + 1) =~= digits@.subrange(
                mid as int,
                j as int,
            ).push(digits@[j as int]));
        }
        string_push(&mut out, digits[j]);
        j = j + 1;
    }
    proof {
        assert(digits@.subrange(mid as int, n as int) =~= digits@.skip(mid as int));
    }
    out
}

} // verus!
