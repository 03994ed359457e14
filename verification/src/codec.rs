use vstd::prelude::*;
use std::collections::VecDeque;
use crate::stamp::Stamp;
use crate::timesheet::{Action, Timesheet, MAX_LEN, actions_wf};
use crate::clock::TimeclockError;

verus! {

broadcast use vstd::std_specs::vecdeque::group_vec_dequeue_axioms;

/// Bytes of one serialized action record.
pub const RECORD_LEN: usize = 37;

/// Longest serialized timesheet the decoder accepts.
pub const MAX_ENC_LEN: usize = 9_620_000;

pub open spec fn pow10(w: nat) -> int
    decreases w,
{
    if w == 0 {
        1
    } else {
        10 * pow10((w - 1) as nat)
    }
}

proof fn lemma_pow10_pos(w: nat)
    ensures
        pow10(w) >= 1,
    decreases w,
{
    if w > 0 {
        lemma_pow10_pos((w - 1) as nat);
    }
}

proof fn lemma_pow10_mono(a: nat, b: nat)
    requires
        a <= b,
    ensures
        pow10(a) <= pow10(b),
    decreases b,
{
    if a < b {
        lemma_pow10_mono(a, (b - 1) as nat);
        lemma_pow10_pos((b - 1) as nat);
    }
}

proof fn lemma_pow10_vals()
    ensures
        pow10(2) == 100,
        pow10(3) == 1000,
        pow10(9) == 1_000_000_000,
        pow10(12) == 1_000_000_000_000,
        pow10(13) == 10_000_000_000_000,
{
    reveal_with_fuel(pow10, 15);
}

/// The last `w` decimal digits of a non-negative number, zero padded, as
/// ASCII bytes, most significant first.
pub open spec fn fixdec(n: int, w: nat) -> Seq<u8>
    decreases w,
{
    if w == 0 {
        Seq::empty()
    } else {
        fixdec(n / 10, (w - 1) as nat).push((48 + n % 10) as u8)
    }
}

/// Whether every byte is an ASCII decimal digit.
pub open spec fn is_digits(b: Seq<u8>) -> bool {
    forall|i: int| 0 <= i < b.len() ==> 48 <= #[trigger] b[i] <= 57
}

/// The number a run of decimal digit bytes spells.
pub open spec fn fixparse(b: Seq<u8>) -> int
    decreases b.len(),
{
    if b.len() == 0 {
        0
    } else {
        fixparse(b.drop_last()) * 10 + (b.last() - 48)
    }
}

pub open spec fn abs_of(n: int) -> int {
    if n < 0 {
        -n
    } else {
        n
    }
}

pub open spec fn sign_byte(n: int) -> u8 {
    if n < 0 {
        45u8
    } else {
        43u8
    }
}

/// A signed number as a sign byte and `w` zero-padded digits.
pub open spec fn enc_signed(n: int, w: nat) -> Seq<u8> {
    seq![sign_byte(n)] + fixdec(abs_of(n), w)
}

/// One serialized instant: signed seconds, signed day number, day of month,
/// day of year, space separated, newline terminated.
pub open spec fn enc_stamp(t: Stamp) -> Seq<u8> {
    enc_signed(t.secs as int, 13) + seq![32u8] + enc_signed(t.days as int, 9) + seq![32u8]
        + fixdec(t.day_of_month as int, 2) + seq![32u8] + fixdec(t.day_of_year as int, 3)
        + seq![10u8]
}

/// One serialized action record: the discriminator `in`/`out`, then the
/// instant.  Always `RECORD_LEN` bytes.
pub open spec fn enc_action(a: Action) -> Seq<u8> {
    (match a {
        Action::In(_) => seq![105u8, 110u8, 32u8, 32u8],
        Action::Out(_) => seq![111u8, 117u8, 116u8, 32u8],
    }) + enc_stamp(a.stamp())
}

/// The serialized log: one record per action, in order.
pub open spec fn enc_sheet(s: Seq<Action>) -> Seq<u8>
    decreases s.len(),
{
    if s.len() == 0 {
        Seq::empty()
    } else {
        enc_action(s[0]) + enc_sheet(s.drop_first())
    }
}

/// Reads back one record, if its 37 bytes are well formed and the values lie
/// within the library's bounds.
pub open spec fn dec_record(b: Seq<u8>) -> Option<Action> {
    if b.len() != RECORD_LEN {
        None
    } else {
        let tag_in = b[0] == 105 && b[1] == 110 && b[2] == 32 && b[3] == 32;
        let tag_out = b[0] == 111 && b[1] == 117 && b[2] == 116 && b[3] == 32;
        let sd = b.subrange(5, 18);
        let dd = b.subrange(20, 29);
        let md = b.subrange(30, 32);
        let yd = b.subrange(33, 36);
        if (tag_in || tag_out) && (b[4] == 43 || b[4] == 45) && (b[19] == 43 || b[19] == 45) && b[18]
            == 32 && b[29] == 32 && b[32] == 32 && b[36] == 10 && is_digits(sd) && is_digits(dd)
            && is_digits(md) && is_digits(yd) && fixparse(sd) <= crate::stamp::MAX_ABS_SECS as int
            && fixparse(dd) <= crate::stamp::MAX_ABS_DAYS as int && 1 <= fixparse(md) <= 31 && 1
            <= fixparse(yd) <= 366 {
            let t = Stamp {
                secs: (if b[4] == 45 {
                    -fixparse(sd)
                } else {
                    fixparse(sd)
                }) as i64,
                days: (if b[19] == 45 {
                    -fixparse(dd)
                } else {
                    fixparse(dd)
                }) as i64,
                day_of_month: fixparse(md) as i64,
                day_of_year: fixparse(yd) as i64,
            };
            if tag_in {
                Some(Action::In(t))
            } else {
                Some(Action::Out(t))
            }
        } else {
            None
        }
    }
}

/// Reads back a whole serialized log: record by record, failing on any
/// malformed remainder.
pub open spec fn dec_sheet(b: Seq<u8>) -> Option<Seq<Action>>
    decreases b.len(),
{
    if b.len() == 0 {
        Some(Seq::empty())
    } else if b.len() < RECORD_LEN {
        None
    } else {
        match dec_record(b.subrange(0, RECORD_LEN as int)) {
            Some(a) => match dec_sheet(b.subrange(RECORD_LEN as int, b.len() as int)) {
                Some(s) => Some(seq![a] + s),
                None => None,
            },
            None => None,
        }
    }
}

proof fn lemma_fixdec_props(n: int, w: nat)
    requires
        0 <= n < pow10(w),
    ensures
        fixdec(n, w).len() == w,
        is_digits(fixdec(n, w)),
        fixparse(fixdec(n, w)) == n,
    decreases w,
{
    if w > 0 {
        assert(n / 10 < pow10((w - 1) as nat)) by {
            if n / 10 >= pow10((w - 1) as nat) {
                assert(n >= 10 * (n / 10));
            }
        }
        lemma_fixdec_props(n / 10, (w - 1) as nat);
        let sub = fixdec(n / 10, (w - 1) as nat);
        let whole = fixdec(n, w);
        assert(whole == sub.push((48 + n % 10) as u8));
        assert(whole.drop_last() =~= sub);
        assert(fixparse(whole) == fixparse(sub) * 10 + (48 + n % 10) - 48);
    }
}

proof fn lemma_fixdec_len(n: int, w: nat)
    ensures
        fixdec(n, w).len() == w,
    decreases w,
{
    if w > 0 {
        lemma_fixdec_len(n / 10, (w - 1) as nat);
    }
}

/// Reading back an encoded record yields the action it encodes.
proof fn lemma_dec_record_enc(a: Action)
    requires
        a.stamp().wf(),
    ensures
        enc_action(a).len() == RECORD_LEN,
        dec_record(enc_action(a)) == Some(a),
{
    let t = a.stamp();
    let b = enc_action(a);
    lemma_pow10_vals();
    lemma_fixdec_props(abs_of(t.secs as int), 13);
    lemma_fixdec_props(abs_of(t.days as int), 9);
    lemma_fixdec_props(t.day_of_month as int, 2);
    lemma_fixdec_props(t.day_of_year as int, 3);
    assert(b.subrange(5, 18) =~= fixdec(abs_of(t.secs as int), 13));
    assert(b.subrange(20, 29) =~= fixdec(abs_of(t.days as int), 9));
    assert(b.subrange(30, 32) =~= fixdec(t.day_of_month as int, 2));
    assert(b.subrange(33, 36) =~= fixdec(t.day_of_year as int, 3));
    assert(dec_record(b) == Some(a));
}

/// Appending one action extends the serialized log by that action's record.
proof fn lemma_enc_sheet_push(s: Seq<Action>, a: Action)
    ensures
        enc_sheet(s.push(a)) == enc_sheet(s) + enc_action(a),
    decreases s.len(),
{
    if s.len() == 0 {
        assert(s.push(a)[0] == a);
        assert(s.push(a).drop_first() =~= Seq::<Action>::empty());
        assert(enc_sheet(s.push(a)) == enc_action(a) + enc_sheet(s.push(a).drop_first()));
        assert(enc_sheet(s.push(a).drop_first()) == Seq::<u8>::empty());
        assert(enc_action(a) + Seq::<u8>::empty() =~= enc_action(a));
        assert(enc_sheet(s) + enc_action(a) =~= enc_action(a));
    } else {
        assert(s.push(a).drop_first() =~= s.drop_first().push(a));
        lemma_enc_sheet_push(s.drop_first(), a);
        assert(s.push(a)[0] == s[0]);
        assert(enc_sheet(s.push(a)) == enc_action(s[0]) + (enc_sheet(s.drop_first())
            + enc_action(a)));
        assert(enc_action(s[0]) + (enc_sheet(s.drop_first()) + enc_action(a)) =~= (enc_action(s[0])
            + enc_sheet(s.drop_first())) + enc_action(a));
    }
}

proof fn lemma_enc_action_len(a: Action)
    ensures
        enc_action(a).len() == RECORD_LEN,
{
    let t = a.stamp();
    lemma_fixdec_len(abs_of(t.secs as int), 13);
    lemma_fixdec_len(abs_of(t.days as int), 9);
    lemma_fixdec_len(t.day_of_month as int, 2);
    lemma_fixdec_len(t.day_of_year as int, 3);
}

/// A serialized log is one record per action, so a well-formed timesheet's
/// encoding never exceeds the length the decoder accepts.
pub proof fn lemma_enc_sheet_len(s: Seq<Action>)
    ensures
        enc_sheet(s).len() == RECORD_LEN * s.len(),
    decreases s.len(),
{
    if s.len() > 0 {
        lemma_enc_action_len(s[0]);
        lemma_enc_sheet_len(s.drop_first());
    }
}

/// Decoding an encoded timesheet yields the same action sequence, order and
/// content preserved.
pub proof fn lemma_codec_round_trip(s: Seq<Action>)
    requires
        actions_wf(s),
    ensures
        dec_sheet(enc_sheet(s)) == Some(s),
    decreases s.len(),
{
    if s.len() > 0 {
        let b = enc_sheet(s);
        let rest = s.drop_first();
        lemma_dec_record_enc(s[0]);
        assert(b.subrange(0, RECORD_LEN as int) =~= enc_action(s[0]));
        assert(b.subrange(RECORD_LEN as int, b.len() as int) =~= enc_sheet(rest));
        assert(forall|i: int| 0 <= i < rest.len() ==> (#[trigger] rest[i]).stamp().wf());
        lemma_codec_round_trip(rest);
        assert(seq![s[0]] + rest =~= s);
    }
}

/// Appends the last `w` digits of `n`, zero padded.
fn push_fixdec(out: &mut Vec<u8>, n: u64, w: usize)
    ensures
        final(out)@ == old(out)@ + fixdec(n as int, w as nat),
        forall|i: int| old(out)@.len() <= i < final(out)@.len() ==> 48 <= #[trigger] final(out)@[i] <= 57,
    decreases w,
{
    if w > 0 {
        push_fixdec(out, n / 10, w - 1);
        out.push(48 + (n % 10) as u8);
        proof {
            assert(old(out)@ + fixdec(n as int, w as nat) =~= (old(out)@ + fixdec(
                n as int / 10,
                (w - 1) as nat,
            )).push((48 + n as int % 10) as u8));
        }
    } else {
        proof {
            assert(old(out)@ + fixdec(n as int, 0) =~= old(out)@);
        }
    }
}

/// Appends a sign byte and `w` zero-padded digits.
fn push_signed(out: &mut Vec<u8>, n: i64, w: usize)
    requires
        -9_223_372_036_854_775_807 <= n,
    ensures
        final(out)@ == old(out)@ + enc_signed(n as int, w as nat),
        forall|i: int| old(out)@.len() <= i < final(out)@.len() ==> 43 <= #[trigger] final(out)@[i] <= 57,
{
    if n < 0 {
        out.push(45);
        push_fixdec(out, (-n) as u64, w);
    } else {
        out.push(43);
        push_fixdec(out, n as u64, w);
    }
    proof {
        assert(old(out)@ + enc_signed(n as int, w as nat) =~= old(out)@.push(sign_byte(n as int))
            + fixdec(abs_of(n as int), w as nat));
    }
}

/// Appends one action's record.
fn push_action(out: &mut Vec<u8>, a: &Action)
    requires
        a.stamp().wf(),
    ensures
        final(out)@ == old(out)@ + enc_action(*a),
        forall|i: int| old(out)@.len() <= i < final(out)@.len() ==> #[trigger] final(out)@[i]
            < 128,
{
    let t = match a {
        Action::In(t) => {
            out.push(105);
            out.push(110);
            out.push(32);
            out.push(32);
            *t
        },
        Action::Out(t) => {
            out.push(111);
            out.push(117);
            out.push(116);
            out.push(32);
            *t
        },
    };
    push_signed(out, t.secs, 13);
    out.push(32);
    push_signed(out, t.days, 9);
    out.push(32);
    push_fixdec(out, t.day_of_month as u64, 2);
    out.push(32);
    push_fixdec(out, t.day_of_year as u64, 3);
    out.push(10);
    proof {
        lemma_fixdec_len(abs_of(t.secs as int), 13);
        lemma_fixdec_len(abs_of(t.days as int), 9);
        lemma_fixdec_len(t.day_of_month as int, 2);
        lemma_fixdec_len(t.day_of_year as int, 3);
        assert(out@ =~= old(out)@ + enc_action(*a));
    }
}

/// Serializes the whole log, one record per action, in order.
pub fn encode_timesheet(sheet: &Timesheet) -> (r: Vec<u8>)
    requires
        sheet.wf(),
    ensures
        r@ == enc_sheet(sheet@),
        forall|i: int| 0 <= i < r@.len() ==> #[trigger] r@[i] < 128,
{
    let mut out: Vec<u8> = Vec::new();
    let n = sheet.clocks.len();
    let mut i: usize = 0;
    while i < n
        invariant
            sheet.wf(),
            n == sheet@.len(),
            0 <= i <= n,
            out@ == enc_sheet(sheet@.take(i as int)),
            forall|j: int| 0 <= j < out@.len() ==> #[trigger] out@[j] < 128,
        decreases n - i,
    {
        let a = sheet.clocks[i];
        proof {
            assert(sheet@.take(i + 1).drop_last() =~= sheet@.take(i as int));
            assert(sheet@.take(i + 1) =~= sheet@.take(i as int).push(sheet@[i as int]));
            lemma_enc_sheet_push(sheet@.take(i as int), sheet@[i as int]);
        }
        push_action(&mut out, &a);
        i = i + 1;
    }
    proof {
        assert(sheet@.take(n as int) =~= sheet@);
    }
    out
}

/// Parses `w` digit bytes starting at `start`.
fn parse_fixed(bytes: &Vec<u8>, start: usize, w: usize) -> (r: Option<u64>)
    requires
        start + w <= bytes@.len(),
        w <= 13,
    ensures
        ({
            let f = bytes@.subrange(start as int, start as int + w);
            match r {
                Some(v) => is_digits(f) && v as int == fixparse(f),
                None => !is_digits(f),
            }
        }),
{
    let len = bytes.len();
    let ghost f = bytes@.subrange(start as int, start as int + w);
    let mut val: u64 = 0;
    let mut j: usize = 0;
    while j < w
        invariant
            len == bytes@.len(),
            start + w <= bytes@.len(),
            w <= 13,
            f == bytes@.subrange(start as int, start as int + w),
            0 <= j <= w,
            is_digits(f.take(j as int)),
            val as int == fixparse(f.take(j as int)),
            val < pow10(j as nat),
        decreases w - j,
    {
        let b = bytes[start + j];
        if b < 48 || b > 57 {
            proof {
                assert(f[j as int] == b);
            }
            return None;
        }
        proof {
            lemma_pow10_vals();
            lemma_pow10_mono(j as nat, 12);
            assert(f.take(j + 1).drop_last() =~= f.take(j as int));
            assert(f.take(j + 1).last() == f[j as int]);
            assert(f[j as int] == b);
        }
        val = val * 10 + (b - 48) as u64;
        j = j + 1;
    }
    proof {
        assert(f.take(w as int) =~= f);
    }
    Some(val)
}

/// Parses the record beginning at `i`.
fn parse_record(bytes: &Vec<u8>, i: usize) -> (r: Option<Action>)
    requires
        i + RECORD_LEN <= bytes@.len(),
    ensures
        r == dec_record(bytes@.subrange(i as int, i as int + RECORD_LEN)),
        r matches Some(a) ==> a.stamp().wf(),
{
    let len = bytes.len();
    let ghost rec = bytes@.subrange(i as int, i as int + RECORD_LEN);
    proof {
        assert(forall|k: int| 0 <= k < RECORD_LEN ==> rec[k] == bytes@[i + k]);
    }
    let tag_in = bytes[i] == 105 && bytes[i + 1] == 110 && bytes[i + 2] == 32 && bytes[i + 3] == 32;
    let tag_out = bytes[i] == 111 && bytes[i + 1] == 117 && bytes[i + 2] == 116 && bytes[i + 3]
        == 32;
    let ssign = bytes[i + 4];
    let dsign = bytes[i + 19];
    if !((tag_in || tag_out) && (ssign == 43 || ssign == 45) && (dsign == 43 || dsign == 45)
        && bytes[i + 18] == 32 && bytes[i + 29] == 32 && bytes[i + 32] == 32 && bytes[i + 36]
        == 10) {
        return None;
    }
    proof {
        assert(rec.subrange(5, 18) =~= bytes@.subrange(i + 5, i + 18));
        assert(rec.subrange(20, 29) =~= bytes@.subrange(i + 20, i + 29));
        assert(rec.subrange(30, 32) =~= bytes@.subrange(i + 30, i + 32));
        assert(rec.subrange(33, 36) =~= bytes@.subrange(i + 33, i + 36));
    }
    let secs_mag = match parse_fixed(bytes, i + 5, 13) {
        Some(v) => v,
        None => {
            return None;
        },
    };
    let days_mag = match parse_fixed(bytes, i + 20, 9) {
        Some(v) => v,
        None => {
            return None;
        },
    };
    let dom = match parse_fixed(bytes, i + 30, 2) {
        Some(v) => v,
        None => {
            return None;
        },
    };
    let doy = match parse_fixed(bytes, i + 33, 3) {
        Some(v) => v,
        None => {
            return None;
        },
    };
    if secs_mag > 8_800_000_000_000 || days_mag > 100_000_000 || dom < 1 || dom > 31 || doy < 1
        || doy > 366 {
        return None;
    }
    let t = Stamp {
        secs: if ssign == 45 {
            -(secs_mag as i64)
        } else {
            secs_mag as i64
        },
        days: if dsign == 45 {
            -(days_mag as i64)
        } else {
            days_mag as i64
        },
        day_of_month: dom as i64,
        day_of_year: doy as i64,
    };
    if tag_in {
        Some(Action::In(t))
    } else {
        Some(Action::Out(t))
    }
}

/// Deserializes a stored log.  Fails, with a parse failure, on any malformed
/// input; a well-formed input yields exactly the encoded sequence.
pub fn decode_timesheet(bytes: &Vec<u8>) -> (r: Result<Timesheet, TimeclockError>)
    ensures
        r matches Ok(t) ==> dec_sheet(bytes@) == Some(t@) && t.wf(),
        r matches Err(e) ==> e == TimeclockError::ParseFailure && (dec_sheet(bytes@) is None
            || bytes@.len() > MAX_ENC_LEN),
{
    if bytes.len() > MAX_ENC_LEN {
        return Err(TimeclockError::ParseFailure);
    }
    let n = bytes.len();
    let mut acc: VecDeque<Action> = VecDeque::new();
    let mut i: usize = 0;
    proof {
        assert(bytes@.subrange(0, n as int) =~= bytes@);
        if dec_sheet(bytes@) is Some {
            assert(acc@ + dec_sheet(bytes@).unwrap() =~= dec_sheet(bytes@).unwrap());
        }
    }
    while i < n
        invariant
            n == bytes@.len(),
            n <= MAX_ENC_LEN,
            0 <= i <= n,
            acc@.len() * RECORD_LEN == i,
            forall|k: int| 0 <= k < acc@.len() ==> (#[trigger] acc@[k]).stamp().wf(),
            ({
                match dec_sheet(bytes@.subrange(i as int, n as int)) {
                    Some(t) => dec_sheet(bytes@) == Some(acc@ + t),
                    None => dec_sheet(bytes@) is None,
                }
            }),
        decreases n - i,
    {
        let ghost suffix = bytes@.subrange(i as int, n as int);
        if n - i < RECORD_LEN {
            proof {
                assert(suffix.len() == n - i);
            }
            return Err(TimeclockError::ParseFailure);
        }
        proof {
            assert(suffix.subrange(0, RECORD_LEN as int) =~= bytes@.subrange(
                i as int,
                i as int + RECORD_LEN,
            ));
            assert(suffix.subrange(RECORD_LEN as int, suffix.len() as int) =~= bytes@.subrange(
                i as int + RECORD_LEN,
                n as int,
            ));
        }
        match parse_record(bytes, i) {
            Some(a) => {
                proof {
                    let next = bytes@.subrange(i as int + RECORD_LEN, n as int);
                    if dec_sheet(next) is Some {
                        let t = dec_sheet(next).unwrap();
                        assert(dec_sheet(suffix) == Some(seq![a] + t));
                        assert(acc@ + (seq![a] + t) =~= acc@.push(a) + t);
                    }
                }
                acc.push_back(a);
                i = i + RECORD_LEN;
            },
            None => {
                return Err(TimeclockError::ParseFailure);
            },
        }
    }
    proof {
        assert(bytes@.subrange(n as int, n as int) =~= Seq::<u8>::empty());
        assert(dec_sheet(bytes@) == Some(acc@ + Seq::<Action>::empty()));
        assert(acc@ + Seq::<Action>::empty() =~= acc@);
        assert(acc@.len() <= MAX_LEN);
    }
    Ok(Timesheet { clocks: acc })
}

/// Loads a stored log from the bytes the storage layer read, or from nothing
/// when the storage location does not exist: a missing file is an empty
/// timesheet, not an error.
pub fn load_timesheet(content: Option<Vec<u8>>) -> (r: Result<Timesheet, TimeclockError>)
    ensures
        content is None ==> (r matches Ok(t) && t@ == Seq::<Action>::empty()),
        content matches Some(b) ==> {
            &&& (r matches Ok(t) ==> dec_sheet(b@) == Some(t@) && t.wf())
            &&& (r matches Err(e) ==> e == TimeclockError::ParseFailure && (dec_sheet(b@) is None
                || b@.len() > MAX_ENC_LEN))
        },
{
    match content {
        None => Ok(Timesheet::default()),
        Some(b) => decode_timesheet(&b),
    }
}

} // verus!
