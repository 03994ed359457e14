use vstd::prelude::*;

verus! {

/// Decimal digits of `n`, most significant first, as ASCII bytes.
pub open spec fn dec_digits(n: nat) -> Seq<u8>
    decreases n,
{
    if n < 10 {
        seq![(48 + n) as u8]
    } else {
        dec_digits(n / 10).push((48 + n % 10) as u8)
    }
}

/// Signed decimal representation, as ASCII bytes.
pub open spec fn dec_signed(n: int) -> Seq<u8> {
    if n >= 0 {
        dec_digits(n as nat)
    } else {
        seq![45u8] + dec_digits((-n) as nat)
    }
}

/// A duration component padded to two digits: a single digit gets a leading
/// zero; anything longer, or negative, is its plain signed decimal.
pub open spec fn pad2(n: int) -> Seq<u8> {
    if 0 <= n <= 9 {
        seq![48u8, (48 + n) as u8]
    } else {
        dec_signed(n)
    }
}

/// Division truncated toward zero, as machine division behaves.
pub open spec fn tdiv(a: int, b: int) -> int {
    if a >= 0 {
        a / b
    } else {
        -((-a) / b)
    }
}

/// Remainder of the truncated division.
pub open spec fn trem(a: int, b: int) -> int {
    a - b * tdiv(a, b)
}

/// A duration of `secs` seconds rendered `HH:MM:SS`, as ASCII bytes.  Hours
/// may exceed two digits; the components of a negative duration each carry
/// their own sign.
pub open spec fn hms_bytes(secs: int) -> Seq<u8> {
    pad2(tdiv(secs, 3600)) + seq![58u8] + pad2(trem(tdiv(secs, 60), 60)) + seq![58u8] + pad2(
        trem(secs, 60),
    )
}

/// Bytes reinterpreted as the characters they spell; meaningful for ASCII.
pub open spec fn ascii_chars(b: Seq<u8>) -> Seq<char> {
    b.map_values(|x: u8| x as char)
}

/// A duration of `secs` seconds rendered `HH:MM:SS`, as text.
pub open spec fn hms_chars(secs: int) -> Seq<char> {
    ascii_chars(hms_bytes(secs))
}

/// Relies on `String::from_utf8`: bytes below 128 are ASCII and decode to
/// exactly those characters, so the conversion never fails on them.
#[verifier::external_body]
pub(crate) fn ascii_string(bytes: Vec<u8>) -> (r: String)
    requires
        forall|i: int| 0 <= i < bytes@.len() ==> bytes@[i] < 128,
    ensures
        r@ == ascii_chars(bytes@),
{
    String::from_utf8(bytes).expect("ASCII bytes are valid UTF-8")
}

/// Appends the decimal digits of `n`.
fn push_dec(out: &mut Vec<u8>, n: u64)
    ensures
        final(out)@ == old(out)@ + dec_digits(n as nat),
        forall|i: int| old(out)@.len() <= i < final(out)@.len() ==> 48 <= #[trigger] final(out)@[i] < 58,
    decreases n,
{
    if n < 10 {
        out.push(48 + n as u8);
        proof {
            assert(old(out)@ + dec_digits(n as nat) =~= old(out)@.push((48 + n) as u8));
        }
    } else {
        push_dec(out, n / 10);
        out.push(48 + (n % 10) as u8);
        proof {
            assert(old(out)@ + dec_digits(n as nat) =~= (old(out)@ + dec_digits((n / 10) as nat)).push((48 + n % 10) as u8));
        }
    }
}

/// Appends one `HH:MM:SS` component, zero padded to two digits.
fn push_pad2(out: &mut Vec<u8>, n: i64)
    requires
        -9_223_372_036_854_775_807 <= n,
    ensures
        final(out)@ == old(out)@ + pad2(n as int),
        forall|i: int| old(out)@.len() <= i < final(out)@.len() ==> 45 <= #[trigger] final(out)@[i] < 58,
{
    if 0 <= n && n <= 9 {
        out.push(48);
        out.push(48 + n as u8);
        proof {
            assert(old(out)@ + pad2(n as int) =~= old(out)@.push(48u8).push((48 + n) as u8));
        }
    } else if n >= 0 {
        push_dec(out, n as u64);
    } else {
        out.push(45);
        push_dec(out, (-n) as u64);
        proof {
            assert(old(out)@ + pad2(n as int) =~= old(out)@.push(45u8) + dec_digits((-n) as nat));
        }
    }
}

/// Renders a duration of `secs` seconds as `HH:MM:SS`, hours unbounded, as
/// the display layer shows durations.
pub fn format_hms(secs: i64) -> (r: String)
    requires
        -5_000_000_000_000_000_000 <= secs <= 5_000_000_000_000_000_000,
    ensures
        r@ == hms_chars(secs as int),
{
    let mut out: Vec<u8> = Vec::new();
    let neg = secs < 0;
    let u: u64 = if neg {
        (-secs) as u64
    } else {
        secs as u64
    };
    let hh: i64 = (u / 3600) as i64;
    let mm: i64 = ((u / 60) % 60) as i64;
    let ss: i64 = (u % 60) as i64;
    let (hh, mm, ss): (i64, i64, i64) = if neg {
        (-hh, -mm, -ss)
    } else {
        (hh, mm, ss)
    };
    proof {
        if secs >= 0 {
            assert(tdiv(secs as int, 3600) == hh as int);
            assert(tdiv(secs as int, 60) == u as int / 60);
            assert(trem(u as int / 60, 60) == mm as int);
            assert(trem(secs as int, 60) == ss as int);
        } else {
            assert(tdiv(secs as int, 3600) == hh as int);
            assert(tdiv(secs as int, 60) == -(u as int / 60));
            assert(trem(-(u as int / 60), 60) == mm as int);
            assert(trem(secs as int, 60) == ss as int);
        }
    }
    push_pad2(&mut out, hh);
    out.push(58);
    push_pad2(&mut out, mm);
    out.push(58);
    push_pad2(&mut out, ss);
    proof {
        assert(out@ =~= hms_bytes(secs as int));
        assert(forall|i: int| 0 <= i < out@.len() ==> out@[i] < 128);
    }
    ascii_string(out)
}

} // verus!
