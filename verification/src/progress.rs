//! Progress accounting: the elapsed-media time format of the external
//! tool's diagnostics, the passthrough strategy's progress pair derived from
//! those diagnostics, and the coordinator's sampling decision.

use vstd::prelude::*;
use crate::text::{
    find_from, find_sub, is_ws, is_digit, all_digits, dec_value, trim_ws, trim_ws_exec, match_at,
    lemma_all_digits_subrange, lemma_find_from_properties, is_ws_exec,
};

verus! {

/// Powers of ten.
pub open spec fn pow10(n: nat) -> nat
    decreases n,
{
    if n == 0 {
        1
    } else {
        10 * pow10((n - 1) as nat)
    }
}

/// A digit string's value stays below the power of ten of its length.
pub proof fn lemma_dec_value_bound(s: Seq<char>)
    requires
        all_digits(s),
    ensures
        dec_value(s) < pow10(s.len() as nat),
    decreases s.len(),
{
    if s.len() > 0 {
        assert(s.drop_last() =~= s.subrange(0, s.len() - 1));
        lemma_all_digits_subrange(s, 0, s.len() - 1);
        lemma_dec_value_bound(s.drop_last());
        assert(is_digit(s.last()));
    }
}

/// Ten to the twelfth, the cap on one time component's digits.
pub proof fn lemma_pow10_twelve()
    ensures
        pow10(12) == 0x000000e8d4a51000,
{
    reveal_with_fuel(pow10, 13);
}

/// Powers of ten grow with the exponent.
pub proof fn lemma_pow10_mono(a: nat, b: nat)
    requires
        a <= b,
    ensures
        pow10(a) <= pow10(b),
    decreases b,
{
    if a < b {
        lemma_pow10_mono(a, (b - 1) as nat);
    }
}

/// The pieces of `s` between colons, every piece kept.
pub open spec fn split_at_colon(s: Seq<char>) -> Seq<Seq<char>>
    decreases s.len(),
{
    let i = find_from(s, seq![':'], 0);
    if 0 <= i && i + 1 <= s.len() {
        seq![s.subrange(0, i)] + split_at_colon(s.subrange(i + 1, s.len() as int))
    } else {
        seq![s]
    }
}

/// Splitting yields at least one piece.
pub proof fn lemma_split_at_colon_len(s: Seq<char>)
    ensures
        split_at_colon(s).len() >= 1,
{
}

/// A well-formed integer time component: digits only, one to twelve of them.
pub open spec fn wf_component(s: Seq<char>) -> bool {
    1 <= s.len() <= 12 && all_digits(s)
}

/// Milliseconds named by a fractional-seconds digit string: the first three
/// digits, padded with zeros on the right.
pub open spec fn frac_millis(s: Seq<char>) -> nat {
    if s.len() >= 3 {
        dec_value(s.subrange(0, 3))
    } else if s.len() == 2 {
        dec_value(s) * 10
    } else if s.len() == 1 {
        dec_value(s) * 100
    } else {
        0
    }
}

/// The value of `H:MM:SS[.frac]` in milliseconds: exactly three colon-parts,
/// each a digit string after trimming, the last optionally carrying a
/// fractional part. Components longer than twelve digits are rejected, which
/// keeps the value within the counter's range.
pub open spec fn parse_time_spec(s: Seq<char>) -> Option<u64> {
    let parts = split_at_colon(s);
    if parts.len() != 3 {
        None
    } else {
        let h = trim_ws(parts[0]);
        let m = trim_ws(parts[1]);
        let sec = trim_ws(parts[2]);
        let di = find_from(sec, seq!['.'], 0);
        let ip = if 0 <= di <= sec.len() {
            sec.subrange(0, di)
        } else {
            sec
        };
        let fp = if 0 <= di && di + 1 <= sec.len() {
            sec.subrange(di + 1, sec.len() as int)
        } else {
            Seq::empty()
        };
        if wf_component(h) && wf_component(m) && wf_component(ip) && all_digits(fp) {
            Some(
                (dec_value(h) * 3600000 + dec_value(m) * 60000 + dec_value(ip) * 1000
                    + frac_millis(fp)) as u64,
            )
        } else {
            None
        }
    }
}

/// A time value stays below the counter's range.
pub proof fn lemma_parse_time_bounded(h: Seq<char>, m: Seq<char>, ip: Seq<char>, fp: Seq<char>)
    requires
        wf_component(h),
        wf_component(m),
        wf_component(ip),
        all_digits(fp),
    ensures
        dec_value(h) * 3600000 + dec_value(m) * 60000 + dec_value(ip) * 1000 + frac_millis(fp)
            < 0x8000000000000000,
{
    lemma_dec_value_bound(h);
    lemma_dec_value_bound(m);
    lemma_dec_value_bound(ip);
    lemma_pow10_mono(h.len() as nat, 12);
    lemma_pow10_mono(m.len() as nat, 12);
    lemma_pow10_mono(ip.len() as nat, 12);
    lemma_pow10_twelve();
    if fp.len() >= 3 {
        assert(all_digits(fp.subrange(0, 3))) by {
            assert(forall|i: int| 0 <= i < 3 ==> fp.subrange(0, 3)[i] == fp[i]);
        }
        lemma_dec_value_bound(fp.subrange(0, 3));
        lemma_pow10_mono(3, 12);
    } else {
        lemma_dec_value_bound(fp);
        lemma_pow10_mono(fp.len() as nat, 3);
        lemma_pow10_mono(3, 12);
        assert(pow10(3) == 1000) by {
            reveal_with_fuel(pow10, 4);
        }
        if fp.len() == 2 {
            assert(pow10(2) == 100) by {
                reveal_with_fuel(pow10, 3);
            }
        }
        if fp.len() == 1 {
            assert(pow10(1) == 10) by {
                reveal_with_fuel(pow10, 2);
            }
        }
    }
}

/// Parses a digit component of at most twelve digits.
fn parse_component(s: &str) -> (r: Option<u64>)
    ensures
        match r {
            Some(v) => wf_component(s@) && v == dec_value(s@),
            None => !wf_component(s@),
        },
{
    let n: usize = s.unicode_len();
    if n == 0 || n > 12 {
        return None;
    }
    let mut acc: u64 = 0;
    let mut i: usize = 0;
    proof {
        lemma_pow10_twelve();
        lemma_pow10_mono(0, 12);
        assert(pow10(0) == 1);
        assert(s@.subrange(0, 0) =~= Seq::<char>::empty());
    }
    while i < n
        invariant
            n == s@.len(),
            1 <= n <= 12,
            0 <= i <= n,
            all_digits(s@.subrange(0, i as int)),
            acc == dec_value(s@.subrange(0, i as int)),
            acc < pow10(i as nat),
            pow10(i as nat) <= pow10(12),
            pow10(12) == 0x000000e8d4a51000,
        decreases n - i,
    {
        let c = s.get_char(i);
        if c < '0' || c > '9' {
            return None;
        }
        let d: u64 = (c as u32 as u64) - ('0' as u32 as u64);
        proof {
            let prefix = s@.subrange(0, i as int);
            let ext = s@.subrange(0, i + 1);
            assert(ext.drop_last() =~= prefix);
            assert(ext.last() == s@[i as int]);
            assert(all_digits(ext)) by {
                assert forall|k: int| 0 <= k < ext.len() implies is_digit(#[trigger] ext[k]) by {
                    if k < i {
                        assert(ext[k] == prefix[k]);
                    } else {
                        assert(ext[k] == s@[i as int]);
                    }
                }
            }
            lemma_pow10_mono((i + 1) as nat, 12);
        }
        acc = acc * 10 + d;
        i += 1;
    }
    proof {
        assert(s@.subrange(0, n as int) =~= s@);
    }
    Some(acc)
}

/// Parses `H:MM:SS[.frac]` to milliseconds, as `parse_time_spec` describes.
#[verifier::loop_isolation(false)]
pub fn parse_time_to_millis(input: &str) -> (r: Option<u64>)
    ensures
        r == parse_time_spec(input@),
{
    let n: usize = input.unicode_len();
    proof {
        reveal_strlit(":");
        assert(":"@ =~= seq![':']);
    }
    let c1 = match find_sub(input, ":", 0) {
        Some(i) => i,
        None => {
            proof {
                assert(split_at_colon(input@).len() == 1);
            }
            return None;
        },
    };
    proof {
        crate::text::lemma_find_from_properties(input@, ":"@, 0);
        assert(match_at(input@, seq![':'], c1 as int));
    }
    let rest1 = input.substring_char(c1 + 1, n);
    let m1: usize = rest1.unicode_len();
    let c2 = match find_sub(rest1, ":", 0) {
        Some(i) => i,
        None => {
            proof {
                assert(split_at_colon(rest1@).len() == 1);
                assert(split_at_colon(input@).len() == 2);
            }
            return None;
        },
    };
    proof {
        crate::text::lemma_find_from_properties(rest1@, ":"@, 0);
        assert(match_at(rest1@, seq![':'], c2 as int));
    }
    let rest2 = rest1.substring_char(c2 + 1, m1);
    if find_sub(rest2, ":", 0).is_some() {
        proof {
            let i = find_from(rest2@, seq![':'], 0);
            crate::text::lemma_find_from_properties(rest2@, ":"@, 0);
            assert(match_at(rest2@, seq![':'], i));
            lemma_split_at_colon_len(rest2@.subrange(i + 1, rest2@.len() as int));
            assert(split_at_colon(rest2@).len() >= 2);
            assert(rest1@.subrange(c2 + 1, rest1@.len() as int) == rest2@);
            assert(split_at_colon(rest1@) == seq![rest1@.subrange(0, c2 as int)]
                + split_at_colon(rest2@));
            assert(input@.subrange(c1 + 1, input@.len() as int) == rest1@);
            assert(split_at_colon(input@) == seq![input@.subrange(0, c1 as int)]
                + split_at_colon(rest1@));
            assert(split_at_colon(input@).len() >= 4);
        }
        return None;
    }
    proof {
        assert(split_at_colon(rest2@).len() == 1);
        assert(split_at_colon(rest1@) == seq![rest1@.subrange(0, c2 as int)] + split_at_colon(
            rest2@,
        ));
        assert(split_at_colon(input@) == seq![input@.subrange(0, c1 as int)] + split_at_colon(
            rest1@,
        ));
        assert(split_at_colon(input@).len() == 3);
        assert(split_at_colon(input@)[0] == input@.subrange(0, c1 as int));
        assert(split_at_colon(input@)[1] == rest1@.subrange(0, c2 as int));
        assert(split_at_colon(input@)[2] == rest2@);
    }
    let hpart = trim_ws_exec(input.substring_char(0, c1));
    let mpart = trim_ws_exec(rest1.substring_char(0, c2));
    let spart = trim_ws_exec(rest2);
    let slen: usize = spart.unicode_len();
    proof {
        reveal_strlit(".");
        assert("."@ =~= seq!['.']);
    }
    let (ipart, fpart) = match find_sub(spart, ".", 0) {
        Some(d) => {
            proof {
                crate::text::lemma_find_from_properties(spart@, "."@, 0);
                assert(match_at(spart@, seq!['.'], d as int));
            }
            (spart.substring_char(0, d), spart.substring_char(d + 1, slen))
        },
        None => {
            proof {
                assert(spart@.subrange(0, slen as int) =~= spart@);
            }
            (spart, spart.substring_char(slen, slen))
        },
    };
    let h = match parse_component(hpart) {
        Some(v) => v,
        None => {
            return None;
        },
    };
    let m = match parse_component(mpart) {
        Some(v) => v,
        None => {
            return None;
        },
    };
    let ip = match parse_component(ipart) {
        Some(v) => v,
        None => {
            return None;
        },
    };
    let flen: usize = fpart.unicode_len();
    let mut fi: usize = 0;
    while fi < flen
        invariant
            flen == fpart@.len(),
            0 <= fi <= flen,
            all_digits(fpart@.subrange(0, fi as int)),
        decreases flen - fi,
    {
        let c = fpart.get_char(fi);
        if c < '0' || c > '9' {
            proof {
                assert(!is_digit(fpart@[fi as int]));
            }
            return None;
        }
        proof {
            let ext = fpart@.subrange(0, fi + 1);
            assert(all_digits(ext)) by {
                assert forall|k: int| 0 <= k < ext.len() implies is_digit(#[trigger] ext[k]) by {
                    if k < fi {
                        assert(ext[k] == fpart@.subrange(0, fi as int)[k]);
                    } else {
                        assert(ext[k] == fpart@[fi as int]);
                    }
                }
            }
        }
        fi += 1;
    }
    proof {
        assert(fpart@.subrange(0, flen as int) =~= fpart@);
    }
    let fm: u64 = if flen >= 3 {
        match parse_component(fpart.substring_char(0, 3)) {
            Some(v) => v,
            None => {
                proof {
                    lemma_all_digits_subrange(fpart@, 0, 3);
                    assert(false);
                }
                return None;
            },
        }
    } else if flen > 0 {
        let v = match parse_component(fpart) {
            Some(v) => v,
            None => {
                return None;
            },
        };
        proof {
            lemma_dec_value_bound(fpart@);
            assert(pow10(1) == 10 && pow10(2) == 100) by {
                reveal_with_fuel(pow10, 3);
            }
            lemma_pow10_mono(fpart@.len() as nat, 2);
        }
        if flen == 2 {
            v * 10
        } else {
            v * 100
        }
    } else {
        0
    };
    proof {
        lemma_parse_time_bounded(hpart@, mpart@, ipart@, fpart@);
        if flen >= 3 {
            lemma_dec_value_bound(fpart@.subrange(0, 3));
            assert(pow10(3) == 1000) by {
                reveal_with_fuel(pow10, 4);
            }
        } else if flen > 0 {
            lemma_dec_value_bound(fpart@);
            assert(pow10(1) == 10 && pow10(2) == 100) by {
                reveal_with_fuel(pow10, 3);
            }
        }
        assert(fm == frac_millis(fpart@));
    }
    Some(h * 3600000 + m * 60000 + ip * 1000 + fm)
}

/// The duration announcement carried by one diagnostic line, if any: the
/// time value between `Duration:` and the next comma.
pub open spec fn duration_in_line(l: Seq<char>) -> Option<u64> {
    let i = find_from(l, "Duration:"@, 0);
    if i < 0 {
        None
    } else {
        let rest = l.subrange(i + "Duration:"@.len(), l.len() as int);
        let j = find_from(rest, seq![','], 0);
        let seg = if 0 <= j <= rest.len() {
            rest.subrange(0, j)
        } else {
            rest
        };
        parse_time_spec(trim_ws(seg))
    }
}

/// Length of the leading whitespace-free run of `s`.
pub open spec fn token_len(s: Seq<char>) -> nat
    decreases s.len(),
{
    if s.len() == 0 || is_ws(s[0]) {
        0
    } else {
        1 + token_len(s.drop_first())
    }
}

/// The first whitespace-delimited token of `s`, empty when there is none.
pub open spec fn first_token(s: Seq<char>) -> Seq<char> {
    let t = trim_ws(s);
    t.subrange(0, token_len(t) as int)
}

/// `token_len` is the first whitespace index, or the length.
pub proof fn lemma_token_len_index(t: Seq<char>, j: int)
    requires
        0 <= j <= t.len(),
        forall|i: int| 0 <= i < j ==> !is_ws(#[trigger] t[i]),
        j == t.len() || is_ws(t[j]),
    ensures
        token_len(t) == j,
    decreases t.len(),
{
    if t.len() == 0 || is_ws(t[0]) {
    } else {
        assert(forall|i: int| 0 <= i < j - 1 ==> t.drop_first()[i] == t[i + 1]);
        if j - 1 < t.drop_first().len() {
            assert(t.drop_first()[j - 1] == t[j]);
        }
        lemma_token_len_index(t.drop_first(), j - 1);
    }
}

/// The current-position update carried by one diagnostic line, if any: the
/// first whitespace-delimited token after `time=`.
pub open spec fn time_in_line(l: Seq<char>) -> Option<u64> {
    let i = find_from(l, "time="@, 0);
    if i < 0 {
        None
    } else {
        let rest = l.subrange(i + "time="@.len(), l.len() as int);
        parse_time_spec(first_token(rest))
    }
}

/// The passthrough strategy's progress pair, fed from the external tool's
/// diagnostic lines. Both counters are in milliseconds of media time; when
/// no duration was announced, the total grows opportunistically with the
/// latest observed position so that a ratio can still be rendered.
pub struct PassthroughProgress {
    pub done_ms: u64,
    pub total_ms: u64,
    pub duration_known: bool,
}

impl PassthroughProgress {
    /// The pair's invariant: what is done never exceeds the total.
    pub open spec fn wf(&self) -> bool {
        self.done_ms <= self.total_ms
    }

    /// One line's effect on the pair. The counters only ever grow.
    pub open spec fn apply_line_spec(self, l: Seq<char>) -> PassthroughProgress {
        let st1 = if !self.duration_known {
            match duration_in_line(l) {
                Some(d) => PassthroughProgress {
                    total_ms: if d > self.total_ms {
                        d
                    } else {
                        self.total_ms
                    },
                    duration_known: true,
                    ..self
                },
                None => self,
            }
        } else {
            self
        };
        match time_in_line(l) {
            Some(t) => {
                let new_done = if t > st1.done_ms {
                    t
                } else {
                    st1.done_ms
                };
                PassthroughProgress {
                    done_ms: new_done,
                    total_ms: if new_done > st1.total_ms {
                        new_done
                    } else {
                        st1.total_ms
                    },
                    ..st1
                }
            },
            None => st1,
        }
    }

    /// A fresh pair, before the tool said anything.
    pub fn new() -> (r: PassthroughProgress)
        ensures
            r.wf(),
            r.done_ms == 0 && r.total_ms == 0 && !r.duration_known,
    {
        PassthroughProgress { done_ms: 0, total_ms: 0, duration_known: false }
    }

    /// Absorbs one diagnostic line, as `apply_line_spec` describes; the
    /// counters never move backwards.
    pub fn apply_tool_line(&mut self, line: &str)
        requires
            old(self).wf(),
        ensures
            final(self).wf(),
            *final(self) == old(self).apply_line_spec(line@),
            final(self).done_ms >= old(self).done_ms,
            final(self).total_ms >= old(self).total_ms,
    {
        if !self.duration_known {
            if let Some(d) = scan_duration(line) {
                if d > self.total_ms {
                    self.total_ms = d;
                }
                self.duration_known = true;
            }
        }
        if let Some(t) = scan_time(line) {
            if t > self.done_ms {
                self.done_ms = t;
            }
            if self.done_ms > self.total_ms {
                self.total_ms = self.done_ms;
            }
        }
    }

    /// Marks the tool's exit: a successful run counts as fully done.
    pub fn finish(&mut self, success: bool)
        requires
            old(self).wf(),
        ensures
            final(self).wf(),
            final(self).total_ms == old(self).total_ms,
            success ==> final(self).done_ms == final(self).total_ms,
            !success ==> final(self).done_ms == old(self).done_ms,
            final(self).done_ms >= old(self).done_ms,
    {
        if success {
            self.done_ms = self.total_ms;
        }
    }
}

/// Scans one line for a duration announcement, as `duration_in_line`.
fn scan_duration(line: &str) -> (r: Option<u64>)
    ensures
        r == duration_in_line(line@),
{
    let n: usize = line.unicode_len();
    let i = match find_sub(line, "Duration:", 0) {
        Some(i) => i,
        None => {
            return None;
        },
    };
    proof {
        reveal_strlit("Duration:");
        lemma_find_from_properties(line@, "Duration:"@, 0);
        assert(match_at(line@, "Duration:"@, i as int));
    }
    let rest = line.substring_char(i + 9, n);
    let m: usize = rest.unicode_len();
    proof {
        reveal_strlit(",");
        assert(","@ =~= seq![',']);
    }
    let seg = match find_sub(rest, ",", 0) {
        Some(j) => {
            proof {
                lemma_find_from_properties(rest@, ","@, 0);
                assert(match_at(rest@, seq![','], j as int));
            }
            rest.substring_char(0, j)
        },
        None => {
            proof {
                assert(rest@.subrange(0, m as int) =~= rest@);
            }
            rest
        },
    };
    parse_time_to_millis(trim_ws_exec(seg))
}

/// Scans one line for a position update, as `time_in_line`.
fn scan_time(line: &str) -> (r: Option<u64>)
    ensures
        r == time_in_line(line@),
{
    let n: usize = line.unicode_len();
    let i = match find_sub(line, "time=", 0) {
        Some(i) => i,
        None => {
            return None;
        },
    };
    proof {
        reveal_strlit("time=");
        lemma_find_from_properties(line@, "time="@, 0);
        assert(match_at(line@, "time="@, i as int));
    }
    let rest = line.substring_char(i + 5, n);
    let t = trim_ws_exec(rest);
    let tlen: usize = t.unicode_len();
    let mut j: usize = 0;
    while j < tlen && !is_ws_exec(t.get_char(j))
        invariant
            tlen == t@.len(),
            0 <= j <= tlen,
            forall|k: int| 0 <= k < j ==> !is_ws(#[trigger] t@[k]),
        decreases tlen - j,
    {
        j += 1;
    }
    proof {
        lemma_token_len_index(t@, j as int);
    }
    parse_time_to_millis(t.substring_char(0, j))
}

/// What the coordinator does on one wake: exit on cancellation, stay quiet
/// while the total is zero, otherwise report the pair and the forward step
/// since the previous sample — never negative, zero when nothing advanced.
#[derive(Clone, Copy, Debug, PartialEq, Eq, Structural)]
pub enum SamplerStep {
    /// The cancellation signal was observed: the sampler exits.
    Exit,
    /// Nothing worth reporting: the total is still zero.
    Quiet,
    /// A progress event to emit.
    Report { done: u64, total: u64, delta: u64 },
}

/// One wake of the sampling task. A report is emitted only when the total
/// is positive, and the reported forward step is never negative: a sample
/// that observed no advance reports a delta of zero.
pub fn coordinator_tick(cancelled: bool, done: u64, total: u64, last_done: u64) -> (r: SamplerStep)
    ensures
        cancelled <==> r is Exit,
        !cancelled && total == 0 <==> r is Quiet,
        r matches SamplerStep::Report { done: d, total: t, delta } ==> {
            &&& d == done
            &&& t == total
            &&& t > 0
            &&& delta == if done > last_done {
                done - last_done
            } else {
                0
            }
        },
        !cancelled && total > 0 ==> r is Report,
{
    if cancelled {
        return SamplerStep::Exit;
    }
    if total == 0 {
        return SamplerStep::Quiet;
    }
    let delta: u64 = if done > last_done {
        done - last_done
    } else {
        0
    };
    SamplerStep::Report { done, total, delta }
}

} // verus!
