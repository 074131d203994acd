use crate::codec::{be_u64, from_be_u64, get_be_u64, lemma_be_u64, put_be_u64, put_bytes};
use crate::iptext::dec_text;
use crate::text::{
    all_ascii, ascii_chars, ascii_string, vec_of, dec_chars, lemma_ascii_chars_add, lemma_dec_text_ascii, push_dec_u64,
};
use crate::crypto::{open, opened, seal, sealable_len, sealed, AeadKey, CryptoError};
use crate::protocol::{decode, encode, lemma_tunnel_roundtrip, parse_tunnel, tunnel_bytes, DecodeError, Header, TunnelMessage};
use vstd::prelude::*;

verus! {

/// Words in the replay bitmap; the window covers 64 sequence numbers per word.
pub const REPLAY_WINDOW_WORDS: usize = 8;

/// Width of the replay window in sequence numbers.
pub const REPLAY_WINDOW_SIZE: u64 = 512;

/// Why a received sequence number was refused by the replay window.
#[derive(Debug, Clone, Copy, PartialEq, Eq, Structural)]
pub enum ReplayRejectKind {
    /// Sequence number 0 is reserved.
    InvalidSeq,
    /// The number lies too far behind the highest one seen.
    TooOld,
    /// The number was already accepted.
    Duplicate,
}

/// A refused sequence number with the window state that refused it.
#[derive(Debug, Clone, Copy, PartialEq, Eq, Structural)]
pub struct ReplayReject {
    pub kind: ReplayRejectKind,
    pub seq: u64,
    pub highest: u64,
    pub behind: Option<u64>,
    pub window: u64,
}

impl ReplayReject {
    pub fn invalid_seq(seq: u64, highest: u64) -> (r: Self)
        ensures
            r == (ReplayReject {
                kind: ReplayRejectKind::InvalidSeq,
                seq,
                highest,
                behind: None,
                window: REPLAY_WINDOW_SIZE,
            }),
    {
        ReplayReject { kind: ReplayRejectKind::InvalidSeq, seq, highest, behind: None, window: REPLAY_WINDOW_SIZE }
    }

    pub fn too_old(seq: u64, highest: u64, behind: u64) -> (r: Self)
        ensures
            r == (ReplayReject {
                kind: ReplayRejectKind::TooOld,
                seq,
                highest,
                behind: Some(behind),
                window: REPLAY_WINDOW_SIZE,
            }),
    {
        ReplayReject {
            kind: ReplayRejectKind::TooOld,
            seq,
            highest,
            behind: Some(behind),
            window: REPLAY_WINDOW_SIZE,
        }
    }

    pub fn duplicate(seq: u64, highest: u64, behind: u64) -> (r: Self)
        ensures
            r == (ReplayReject {
                kind: ReplayRejectKind::Duplicate,
                seq,
                highest,
                behind: Some(behind),
                window: REPLAY_WINDOW_SIZE,
            }),
    {
        ReplayReject {
            kind: ReplayRejectKind::Duplicate,
            seq,
            highest,
            behind: Some(behind),
            window: REPLAY_WINDOW_SIZE,
        }
    }
}

/// The numbers of a refusal as its text lists them.
pub open spec fn reject_numbers(r: ReplayReject) -> Seq<char> {
    let behind = match r.behind {
        Some(b) => b,
        None => 0,
    };
    dec_chars(r.seq as nat) + " highest="@ + dec_chars(r.highest as nat) + " behind="@ + dec_chars(behind as nat)
        + " window="@ + dec_chars(r.window as nat)
}

/// The text of a refusal.
pub open spec fn reject_text(r: ReplayReject) -> Seq<char> {
    match r.kind {
        ReplayRejectKind::InvalidSeq => "seq 0 is reserved / invalid"@,
        ReplayRejectKind::TooOld => "packet too old for replay window: seq="@ + reject_numbers(r),
        ReplayRejectKind::Duplicate => "duplicate packet detected: seq="@ + reject_numbers(r),
    }
}

/// Append ASCII `word` and the decimal digits of `x`.
fn push_word_and_number(out: &mut Vec<u8>, word: &[u8], x: u64)
    requires
        all_ascii(old(out)@),
        all_ascii(word@),
    ensures
        all_ascii(final(out)@),
        ascii_chars(final(out)@) == ascii_chars(old(out)@) + ascii_chars(word@) + dec_chars(x as nat),
{
    let ghost before = out@;
    put_bytes(out, word);
    push_dec_u64(out, x);
    proof {
        lemma_dec_text_ascii(x as nat);
        assert(out@ == before + word@ + dec_text(x as nat));
        lemma_ascii_chars_add(before + word@, dec_text(x as nat));
        lemma_ascii_chars_add(before, word@);
        assert forall|i: int| 0 <= i < out@.len() implies #[trigger] out@[i] < 128 by {
            if i < before.len() {
                assert(out@[i] == before[i]);
            } else if i < before.len() + word@.len() {
                assert(out@[i] == word@[i - before.len()]);
            } else {
                assert(out@[i] == dec_text(x as nat)[i - before.len() - word@.len()]);
            }
        }
    }
}

impl ReplayReject {
    /// The text of the refusal: what was refused, the highest number seen, how far behind
    /// it the refused number lies, and the window width.
    pub fn to_string(&self) -> (s: String)
        ensures
            s@ == reject_text(*self),
    {
        let mut out: Vec<u8> = Vec::new();
        let highest: [u8; 9] = [32, 104, 105, 103, 104, 101, 115, 116, 61];
        let behind_word: [u8; 8] = [32, 98, 101, 104, 105, 110, 100, 61];
        let window_word: [u8; 8] = [32, 119, 105, 110, 100, 111, 119, 61];
        proof {
            reveal_strlit(" highest=");
            reveal_strlit(" behind=");
            reveal_strlit(" window=");
            assert(ascii_chars(highest@) =~= " highest="@);
            assert(ascii_chars(behind_word@) =~= " behind="@);
            assert(ascii_chars(window_word@) =~= " window="@);
        }
        let lead: Vec<u8> = match self.kind {
            ReplayRejectKind::InvalidSeq => {
                let w: [u8; 27] = [
                    115, 101, 113, 32, 48, 32, 105, 115, 32, 114, 101, 115, 101, 114, 118, 101, 100, 32, 47, 32,
                    105, 110, 118, 97, 108, 105, 100,
                ];
                proof {
                    reveal_strlit("seq 0 is reserved / invalid");
                    assert(ascii_chars(w@) =~= "seq 0 is reserved / invalid"@);
                }
                vec_of(w.as_slice())
            },
            ReplayRejectKind::TooOld => {
                let w: [u8; 38] = [
                    112, 97, 99, 107, 101, 116, 32, 116, 111, 111, 32, 111, 108, 100, 32, 102, 111, 114, 32, 114,
                    101, 112, 108, 97, 121, 32, 119, 105, 110, 100, 111, 119, 58, 32, 115, 101, 113, 61,
                ];
                proof {
                    reveal_strlit("packet too old for replay window: seq=");
                    assert(ascii_chars(w@) =~= "packet too old for replay window: seq="@);
                }
                vec_of(w.as_slice())
            },
            ReplayRejectKind::Duplicate => {
                let w: [u8; 31] = [
                    100, 117, 112, 108, 105, 99, 97, 116, 101, 32, 112, 97, 99, 107, 101, 116, 32, 100, 101, 116,
                    101, 99, 116, 101, 100, 58, 32, 115, 101, 113, 61,
                ];
                proof {
                    reveal_strlit("duplicate packet detected: seq=");
                    assert(ascii_chars(w@) =~= "duplicate packet detected: seq="@);
                }
                vec_of(w.as_slice())
            },
        };
        proof {
            assert(all_ascii(lead@));
            assert(all_ascii(highest@));
            assert(all_ascii(behind_word@));
            assert(all_ascii(window_word@));
        }
        match self.kind {
            ReplayRejectKind::InvalidSeq => {
                return ascii_string(&lead);
            },
            _ => {},
        }
        let behind = match self.behind {
            Some(b) => b,
            None => 0,
        };
        push_word_and_number(&mut out, lead.as_slice(), self.seq);
        push_word_and_number(&mut out, highest.as_slice(), self.highest);
        push_word_and_number(&mut out, behind_word.as_slice(), behind);
        push_word_and_number(&mut out, window_word.as_slice(), self.window);
        let s = ascii_string(&out);
        proof {
            assert(ascii_chars(Seq::<u8>::empty()) =~= Seq::<char>::empty());
            assert(s@ =~= reject_text(*self));
        }
        s
    }
}

/// Bit `j` of `w`.
pub open spec fn bit_of(w: u64, j: u64) -> bool {
    (w >> j) & 1u64 == 1u64
}

/// Whether the number `b` places behind the highest is marked seen in `bm`.
pub open spec fn seen_in(bm: Seq<u64>, b: int) -> bool {
    0 <= b < REPLAY_WINDOW_SIZE && bit_of(bm[b / 64], (b % 64) as u64)
}

/// Sliding-window replay protection for one session: the highest sequence number
/// accepted so far and a bitmap of which of the `REPLAY_WINDOW_SIZE` numbers at
/// and behind it were accepted (bit `b` = `highest - b`).
#[derive(Debug)]
pub struct RecvReplayState {
    pub highest: u64,
    pub bitmap: Vec<u64>,
}

proof fn lemma_bit_set_or(w: u64, j: u64, k: u64)
    requires
        j < 64,
        k < 64,
    ensures
        bit_of(w | (1u64 << j), k) == (k == j || bit_of(w, k)),
{
    assert(((w | (1u64 << j)) >> k) & 1u64 == 1u64 <==> (k == j || (w >> k) & 1u64 == 1u64)) by (bit_vector)
        requires
            j < 64,
            k < 64,
    ;
}

proof fn lemma_bit_and_one(w: u64, j: u64)
    requires
        j < 64,
    ensures
        (w & (1u64 << j) != 0) == bit_of(w, j),
{
    assert((w & (1u64 << j) != 0) <==> (w >> j) & 1u64 == 1u64) by (bit_vector)
        requires
            j < 64,
    ;
}

proof fn lemma_bit_zero(j: u64)
    requires
        j < 64,
    ensures
        !bit_of(0u64, j),
{
    assert(!((0u64 >> j) & 1u64 == 1u64)) by (bit_vector);
}

proof fn lemma_bit_shift_left(a: u64, bs: u64, j: u64)
    requires
        bs < 64,
        j < 64,
    ensures
        bit_of(a << bs, j) == (j >= bs && bit_of(a, (j - bs) as u64)),
{
    assert(((a << bs) >> j) & 1u64 == 1u64 <==> (j >= bs && (a >> ((j - bs) as u64)) & 1u64 == 1u64))
        by (bit_vector)
        requires
            bs < 64,
            j < 64,
    ;
}

proof fn lemma_bit_shift_combine(a: u64, c: u64, bs: u64, j: u64)
    requires
        0 < bs < 64,
        j < 64,
    ensures
        bit_of((a << bs) | (c >> ((64 - bs) as u64)), j) == (if j >= bs {
            bit_of(a, (j - bs) as u64)
        } else {
            bit_of(c, (64 - bs + j) as u64)
        }),
{
    assert((((a << bs) | (c >> ((64 - bs) as u64))) >> j) & 1u64 == 1u64 <==> (if j >= bs {
        (a >> ((j - bs) as u64)) & 1u64 == 1u64
    } else {
        (c >> ((64 - bs + j) as u64)) & 1u64 == 1u64
    })) by (bit_vector)
        requires
            0 < bs < 64,
            j < 64,
    ;
}

impl RecvReplayState {
    pub open spec fn wf(&self) -> bool {
        self.bitmap@.len() == REPLAY_WINDOW_WORDS
    }

    /// The number `b` places behind the highest is marked seen.
    pub open spec fn seen(&self, b: int) -> bool {
        seen_in(self.bitmap@, b)
    }

    /// Whether `seq` would be refused: 0, or at or behind the highest accepted number
    /// and either outside the window or already marked seen.
    pub open spec fn refuses(&self, seq: u64) -> bool {
        seq == 0 || (self.highest != 0 && seq <= self.highest && (self.highest - seq >= REPLAY_WINDOW_SIZE
            || self.seen(self.highest - seq)))
    }

    /// `next` is this window after accepting `seq`: the highest number moves up to `seq`
    /// if `seq` is above it (sliding the marks back by the difference), and `seq` is marked.
    pub open spec fn accepted(&self, seq: u64, next: RecvReplayState) -> bool {
        &&& next.wf()
        &&& next.highest == (if self.highest == 0 || seq > self.highest {
            seq
        } else {
            self.highest
        })
        &&& self.highest == 0 ==> forall|b: int| next.seen(b) == (b == 0)
        &&& self.highest != 0 && seq > self.highest ==> forall|b: int|
            next.seen(b) == (b == 0 || (b < REPLAY_WINDOW_SIZE && b >= seq - self.highest && self.seen(
                b - (seq - self.highest),
            )))
        &&& self.highest != 0 && seq <= self.highest ==> forall|b: int|
            next.seen(b) == (b == self.highest - seq || self.seen(b))
    }

    /// The refusal `check_and_update` reports for `seq`.
    pub open spec fn refusal(&self, seq: u64) -> ReplayReject {
        if seq == 0 {
            ReplayReject {
                kind: ReplayRejectKind::InvalidSeq,
                seq,
                highest: self.highest,
                behind: None,
                window: REPLAY_WINDOW_SIZE,
            }
        } else if self.highest - seq >= REPLAY_WINDOW_SIZE {
            ReplayReject {
                kind: ReplayRejectKind::TooOld,
                seq,
                highest: self.highest,
                behind: Some((self.highest - seq) as u64),
                window: REPLAY_WINDOW_SIZE,
            }
        } else {
            ReplayReject {
                kind: ReplayRejectKind::Duplicate,
                seq,
                highest: self.highest,
                behind: Some((self.highest - seq) as u64),
                window: REPLAY_WINDOW_SIZE,
            }
        }
    }

    pub fn new() -> (r: Self)
        ensures
            r.wf(),
            r.highest == 0,
            forall|b: int| !r.seen(b),
    {
        let r = RecvReplayState { highest: 0, bitmap: vec![0u64; REPLAY_WINDOW_WORDS] };
        proof {
            assert forall|b: int| !r.seen(b) by {
                if 0 <= b < REPLAY_WINDOW_SIZE {
                    lemma_bit_zero((b % 64) as u64);
                }
            }
        }
        r
    }

    /// Forget every number marked seen.
    pub fn clear_history(&mut self)
        ensures
            final(self).wf(),
            final(self).highest == old(self).highest,
            forall|b: int| !final(self).seen(b),
    {
        self.bitmap = vec![0u64; REPLAY_WINDOW_WORDS];
        proof {
            assert forall|b: int| !self.seen(b) by {
                if 0 <= b < REPLAY_WINDOW_SIZE {
                    lemma_bit_zero((b % 64) as u64);
                }
            }
        }
    }

    /// Mark the number `behind` places behind the highest as seen.
    pub fn mark_seen(&mut self, behind: u64)
        requires
            old(self).wf(),
            behind < REPLAY_WINDOW_SIZE,
        ensures
            final(self).wf(),
            final(self).highest == old(self).highest,
            forall|b: int| final(self).seen(b) == (b == behind || old(self).seen(b)),
    {
        let word_idx = (behind / 64) as usize;
        let bit_idx = behind % 64;
        let w = self.bitmap[word_idx];
        self.bitmap.set(word_idx, w | (1u64 << bit_idx));
        proof {
            assert forall|b: int| self.seen(b) == (b == behind || old(self).seen(b)) by {
                if 0 <= b < REPLAY_WINDOW_SIZE {
                    if b / 64 == word_idx {
                        lemma_bit_set_or(w, bit_idx, (b % 64) as u64);
                    }
                }
            }
        }
    }

    /// Whether the number `behind` places behind the highest is marked seen.
    pub fn is_seen(&self, behind: u64) -> (r: bool)
        requires
            self.wf(),
            behind < REPLAY_WINDOW_SIZE,
        ensures
            r == self.seen(behind as int),
    {
        let word_idx = (behind / 64) as usize;
        let bit_idx = behind % 64;
        proof {
            lemma_bit_and_one(self.bitmap@[word_idx as int], bit_idx);
        }
        (self.bitmap[word_idx] & (1u64 << bit_idx)) != 0
    }

    /// Slide the window forward by `diff` numbers: what was `b` behind becomes `b + diff` behind.
    pub fn shift_forward(&mut self, diff: u64)
        requires
            old(self).wf(),
        ensures
            final(self).wf(),
            final(self).highest == old(self).highest,
            forall|b: int| final(self).seen(b) == (0 <= b < REPLAY_WINDOW_SIZE && b >= diff && old(self).seen(b - diff)),
    {
        if diff >= REPLAY_WINDOW_SIZE {
            self.clear_history();
            return;
        }
        let word_shift = (diff / 64) as usize;
        let bit_shift = diff % 64;
        let ghost prev = self.bitmap@;
        let mut shifted: Vec<u64> = vec![0u64; REPLAY_WINDOW_WORDS];
        let mut dest: usize = 0;
        while dest < REPLAY_WINDOW_WORDS
            invariant
                prev == old(self).bitmap@,
                prev.len() == REPLAY_WINDOW_WORDS,
                self.bitmap@ == prev,
                self.highest == old(self).highest,
                shifted@.len() == REPLAY_WINDOW_WORDS,
                word_shift == diff / 64,
                bit_shift == diff % 64,
                diff < REPLAY_WINDOW_SIZE,
                dest <= REPLAY_WINDOW_WORDS,
                forall|d: int, j: u64|
                    0 <= d < dest && j < 64 ==> #[trigger] bit_of(shifted@[d], j) == (d * 64 + j >= diff
                        && seen_in(prev, d * 64 + j - diff)),
                forall|d: int| dest <= d < REPLAY_WINDOW_WORDS ==> shifted@[d] == 0u64,
            decreases REPLAY_WINDOW_WORDS - dest,
        {
            if dest >= word_shift {
                let src = dest - word_shift;
                let mut value = self.bitmap[src] << bit_shift;
                if bit_shift > 0 && src > 0 {
                    value = value | (self.bitmap[src - 1] >> (64 - bit_shift));
                }
                shifted.set(dest, value);
                proof {
                    assert forall|j: u64| j < 64 implies #[trigger] bit_of(shifted@[dest as int], j) == (dest * 64
                        + j >= diff && seen_in(prev, dest * 64 + j - diff)) by {
                        let b = dest * 64 + j - diff;
                        assert(diff == word_shift * 64 + bit_shift);
                        if bit_shift > 0 && src > 0 {
                            lemma_bit_shift_combine(prev[src as int], prev[src - 1], bit_shift, j);
                            if j >= bit_shift {
                                assert(b == src * 64 + (j - bit_shift));
                                assert(b / 64 == src && b % 64 == j - bit_shift) by (nonlinear_arith)
                                    requires
                                        b == src * 64 + (j - bit_shift),
                                        0 <= j - bit_shift < 64;
                            } else {
                                assert(b == (src - 1) * 64 + (64 - bit_shift + j));
                                assert(b / 64 == src - 1 && b % 64 == 64 - bit_shift + j) by (nonlinear_arith)
                                    requires
                                        b == (src - 1) * 64 + (64 - bit_shift + j),
                                        0 <= 64 - bit_shift + j < 64;
                            }
                        } else {
                            lemma_bit_shift_left(prev[src as int], bit_shift, j);
                            if j >= bit_shift {
                                assert(b == src * 64 + (j - bit_shift));
                                assert(b / 64 == src && b % 64 == j - bit_shift) by (nonlinear_arith)
                                    requires
                                        b == src * 64 + (j - bit_shift),
                                        0 <= j - bit_shift < 64;
                            } else {
                                assert(b < 0);
                            }
                        }
                    }
                }
            } else {
                proof {
                    assert forall|j: u64| j < 64 implies #[trigger] bit_of(shifted@[dest as int], j) == (dest * 64
                        + j >= diff && seen_in(prev, dest * 64 + j - diff)) by {
                        lemma_bit_zero(j);
                        assert(dest * 64 + j < diff);
                    }
                }
            }
            dest = dest + 1;
        }
        self.bitmap = shifted;
        proof {
            assert forall|b: int| self.seen(b) == (0 <= b < REPLAY_WINDOW_SIZE && b >= diff && old(self).seen(b - diff)) by {
                if 0 <= b < REPLAY_WINDOW_SIZE {
                    let d = b / 64;
                    let j = (b % 64) as u64;
                    assert(b == d * 64 + j);
                    assert(bit_of(shifted@[d], j) == (d * 64 + j >= diff && seen_in(prev, d * 64 + j - diff)));
                }
            }
        }
    }

    /// Accept `seq` if it is new and inside the window, recording it; otherwise report why not.
    pub fn check_and_update(&mut self, seq: u64) -> (r: Result<(), ReplayReject>)
        requires
            old(self).wf(),
        ensures
            final(self).wf(),
            (r is Err) == old(self).refuses(seq),
            r is Err ==> r == Err::<(), ReplayReject>(old(self).refusal(seq)) && final(self)@ == old(self)@,
            r is Ok ==> old(self).accepted(seq, *final(self)),
            // what was refused stays refused, and what was accepted is refused from now on
            keeps_refusals(*old(self), *final(self)),
            r is Ok ==> final(self).refuses(seq),
    {
        if seq == 0 {
            return Err(ReplayReject::invalid_seq(seq, self.highest));
        }
        if self.highest == 0 {
            self.highest = seq;
            self.clear_history();
            self.mark_seen(0);
            proof {
                assert forall|t: u64| old(self).refuses(t) implies #[trigger] self.refuses(t) by {}
            }
            return Ok(());
        }
        if seq > self.highest {
            let diff = seq - self.highest;
            self.shift_forward(diff);
            let ghost mid = self.bitmap@;
            assert forall|b: int| seen_in(mid, b) == (0 <= b < REPLAY_WINDOW_SIZE && b >= diff && old(self).seen(b - diff)) by {
                assert(self.seen(b) == seen_in(mid, b));
            }
            self.highest = seq;
            self.mark_seen(0);
            assert forall|b: int| self.seen(b) == (b == 0 || seen_in(mid, b)) by {
                assert(self.seen(b) == (b == 0 || seen_in(mid, b)));
            }
            proof {
                assert forall|t: u64| old(self).refuses(t) implies #[trigger] self.refuses(t) by {
                    if t != 0 {
                        let b = old(self).highest - t;
                        if b < REPLAY_WINDOW_SIZE && b + diff < REPLAY_WINDOW_SIZE {
                            assert(old(self).seen(b));
                            assert(seen_in(mid, b + diff));
                            assert(self.seen(b + diff));
                            assert(self.highest - t == b + diff);
                        }
                    }
                }
            }
            return Ok(());
        }
        let behind = self.highest - seq;
        if behind >= REPLAY_WINDOW_SIZE {
            return Err(ReplayReject::too_old(seq, self.highest, behind));
        }
        if self.is_seen(behind) {
            return Err(ReplayReject::duplicate(seq, self.highest, behind));
        }
        self.mark_seen(behind);
        Ok(())
    }
}

impl View for RecvReplayState {
    type V = (u64, Seq<u64>);

    open spec fn view(&self) -> (u64, Seq<u64>) {
        (self.highest, self.bitmap@)
    }
}

/// Every number refused by `a` is refused by `b`; `check_and_update` always steps this way.
pub open spec fn keeps_refusals(a: RecvReplayState, b: RecvReplayState) -> bool {
    forall|t: u64| a.refuses(t) ==> #[trigger] b.refuses(t)
}

/// Replay protection: once a sequence number has been accepted (and so is refused by the
/// state that accepted it), it is refused by every later state of the window, whatever
/// other numbers were checked in between.
pub proof fn lemma_accepted_is_refused_forever(states: Seq<RecvReplayState>, seq: u64)
    requires
        states.len() >= 1,
        states[0].refuses(seq),
        forall|i: int| 0 <= i < states.len() - 1 ==> #[trigger] keeps_refusals(states[i], states[i + 1]),
    ensures
        states[states.len() - 1].refuses(seq),
    decreases states.len(),
{
    if states.len() > 1 {
        let prefix = states.drop_last();
        lemma_accepted_is_refused_forever(prefix, seq);
        let i = states.len() - 2;
        assert(states[i] == prefix[prefix.len() - 1]);
        assert(keeps_refusals(states[i], states[i + 1]));
        assert(states[i + 1].refuses(seq));
    }
}

/// The window agrees with the set of numbers accepted so far: the highest is 0 exactly
/// when none was, and is then the largest; every accepted number lies in 1..=highest;
/// within the window a number is marked seen exactly when it was accepted; and nothing
/// outside the window, or at or below 0, is marked.
pub open spec fn window_matches(st: RecvReplayState, acc: Set<u64>) -> bool {
    &&& st.wf()
    &&& st.highest == 0 ==> forall|t: u64| !#[trigger] acc.contains(t)
    &&& st.highest != 0 ==> acc.contains(st.highest)
    &&& forall|t: u64| #[trigger] acc.contains(t) ==> 1 <= t <= st.highest
    &&& forall|t: u64|
        1 <= t <= st.highest && st.highest - t < REPLAY_WINDOW_SIZE ==> (#[trigger] st.seen(st.highest - t)
            <==> acc.contains(t))
    &&& forall|b: int| #[trigger] st.seen(b) ==> 0 <= b < REPLAY_WINDOW_SIZE && b < st.highest
}

/// A fresh window agrees with the empty history.
pub proof fn lemma_new_window_matches(st: RecvReplayState)
    requires
        st.wf(),
        st.highest == 0,
        forall|b: int| !st.seen(b),
    ensures
        window_matches(st, Set::empty()),
{
}

/// The replay window in terms of the history: a number is accepted exactly when it is
/// not 0 and either nothing was accepted yet, or it lies above the highest accepted, or
/// it lies within the window behind it and was not accepted before. Acceptance raises
/// the highest to the larger of the two and adds the number to the history; a refusal
/// leaves everything as it was.
pub proof fn lemma_replay_window_history(old: RecvReplayState, new: RecvReplayState, acc: Set<u64>, seq: u64, ok: bool)
    requires
        window_matches(old, acc),
        ok == !old.refuses(seq),
        ok ==> old.accepted(seq, new),
        !ok ==> new@ == old@ && new.wf(),
    ensures
        ok <==> seq != 0 && (old.highest == 0 || seq > old.highest || (old.highest - seq < REPLAY_WINDOW_SIZE
            && !acc.contains(seq))),
        ok ==> new.highest == (if seq > old.highest { seq } else { old.highest }),
        window_matches(new, if ok { acc.insert(seq) } else { acc }),
{
    let h = old.highest;
    if 1 <= seq <= h && h - seq < REPLAY_WINDOW_SIZE {
        assert(old.seen(h - seq) <==> acc.contains(seq));
    }
    if !ok {
        assert forall|b: int| new.seen(b) == old.seen(b) by {}
    } else {
        let acc2 = acc.insert(seq);
        if h == 0 {
            assert forall|t: u64| 1 <= t <= new.highest && new.highest - t < REPLAY_WINDOW_SIZE implies (
            #[trigger] new.seen(new.highest - t) <==> acc2.contains(t)) by {}
        } else if seq > h {
            let diff = seq - h;
            assert forall|t: u64| 1 <= t <= new.highest && new.highest - t < REPLAY_WINDOW_SIZE implies (
            #[trigger] new.seen(new.highest - t) <==> acc2.contains(t)) by {
                let b = seq - t;
                if t <= h {
                    assert(b - diff == h - t);
                    assert(old.seen(h - t) <==> acc.contains(t));
                }
            }
            assert forall|b: int| #[trigger] new.seen(b) implies 0 <= b < REPLAY_WINDOW_SIZE && b < new.highest by {
                if b != 0 {
                    assert(old.seen(b - diff));
                }
            }
        } else {
            assert forall|t: u64| 1 <= t <= new.highest && new.highest - t < REPLAY_WINDOW_SIZE implies (
            #[trigger] new.seen(new.highest - t) <==> acc2.contains(t)) by {
                assert(old.seen(h - t) <==> acc.contains(t));
            }
            assert forall|b: int| #[trigger] new.seen(b) implies 0 <= b < REPLAY_WINDOW_SIZE && b < new.highest by {
                if b != h - seq {
                    assert(old.seen(b));
                }
            }
        }
    }
}

/// The numbers accepted in the first `n` checks of a run.
pub open spec fn accepted_in_run(seqs: Seq<u64>, oks: Seq<bool>, n: int) -> Set<u64>
    decreases n,
{
    if n <= 0 {
        Set::empty()
    } else {
        let before = accepted_in_run(seqs, oks, n - 1);
        if oks[n - 1] {
            before.insert(seqs[n - 1])
        } else {
            before
        }
    }
}

/// `states` are the windows along a run of checks of `seqs` from a fresh window, `oks`
/// the answers: each check accepts as `check_and_update` does, or refuses and leaves the
/// window as it was.
pub open spec fn replay_run(states: Seq<RecvReplayState>, seqs: Seq<u64>, oks: Seq<bool>) -> bool {
    &&& states.len() == seqs.len() + 1
    &&& oks.len() == seqs.len()
    &&& states[0].wf()
    &&& states[0].highest == 0
    &&& forall|b: int| !states[0].seen(b)
    &&& forall|i: int|
        0 <= i < seqs.len() ==> {
            &&& #[trigger] oks[i] == !states[i].refuses(seqs[i])
            &&& oks[i] ==> states[i].accepted(seqs[i], states[i + 1])
            &&& !oks[i] ==> states[i + 1]@ == states[i]@ && states[i + 1].wf()
        }
}

proof fn lemma_replay_run_prefix(states: Seq<RecvReplayState>, seqs: Seq<u64>, oks: Seq<bool>, n: int)
    requires
        replay_run(states, seqs, oks),
        0 <= n <= seqs.len(),
    ensures
        window_matches(states[n], accepted_in_run(seqs, oks, n)),
    decreases n,
{
    if n == 0 {
        lemma_new_window_matches(states[0]);
        assert(accepted_in_run(seqs, oks, 0) =~= Set::<u64>::empty());
    } else {
        lemma_replay_run_prefix(states, seqs, oks, n - 1);
        assert(oks[n - 1] == !states[n - 1].refuses(seqs[n - 1]));
        lemma_replay_window_history(states[n - 1], states[n], accepted_in_run(seqs, oks, n - 1), seqs[n - 1], oks[n - 1]);
    }
}

proof fn lemma_accepted_in_run_grows(seqs: Seq<u64>, oks: Seq<bool>, i: int, j: int)
    requires
        0 <= i <= j,
    ensures
        accepted_in_run(seqs, oks, i).subset_of(accepted_in_run(seqs, oks, j)),
    decreases j,
{
    if i < j {
        lemma_accepted_in_run_grows(seqs, oks, i, j - 1);
    }
}

/// A run of checks from a fresh window, in terms of its history: each check accepts a
/// number exactly when it is not 0 and either nothing was accepted before, or it lies
/// above the highest accepted, or it lies within the window behind it and was not
/// accepted earlier in the run; and no number is ever accepted twice.
pub proof fn lemma_replay_run(states: Seq<RecvReplayState>, seqs: Seq<u64>, oks: Seq<bool>)
    requires
        replay_run(states, seqs, oks),
    ensures
        forall|i: int|
            0 <= i < seqs.len() ==> (#[trigger] oks[i] <==> seqs[i] != 0 && (states[i].highest == 0 || seqs[i]
                > states[i].highest || (states[i].highest - seqs[i] < REPLAY_WINDOW_SIZE && !accepted_in_run(
                seqs,
                oks,
                i,
            ).contains(seqs[i])))),
        forall|i: int| 0 <= i <= seqs.len() ==> window_matches(#[trigger] states[i], accepted_in_run(seqs, oks, i)),
        forall|i: int, j: int| 0 <= i < j < seqs.len() && #[trigger] oks[i] && #[trigger] oks[j] ==> seqs[i] != seqs[j],
{
    assert forall|i: int| 0 <= i <= seqs.len() implies window_matches(#[trigger] states[i], accepted_in_run(seqs, oks, i)) by {
        lemma_replay_run_prefix(states, seqs, oks, i);
    }
    assert forall|i: int| 0 <= i < seqs.len() implies (#[trigger] oks[i] <==> seqs[i] != 0 && (states[i].highest == 0
        || seqs[i] > states[i].highest || (states[i].highest - seqs[i] < REPLAY_WINDOW_SIZE && !accepted_in_run(
        seqs,
        oks,
        i,
    ).contains(seqs[i])))) by {
        lemma_replay_run_prefix(states, seqs, oks, i);
        lemma_replay_window_history(states[i], states[i + 1], accepted_in_run(seqs, oks, i), seqs[i], oks[i]);
    }
    assert forall|i: int, j: int| 0 <= i < j < seqs.len() && #[trigger] oks[i] && #[trigger] oks[j] implies seqs[i]
        != seqs[j] by {
        lemma_accepted_in_run_grows(seqs, oks, i + 1, j);
        assert(accepted_in_run(seqs, oks, i + 1).contains(seqs[i]));
        lemma_replay_run_prefix(states, seqs, oks, j);
        lemma_replay_window_history(states[j], states[j + 1], accepted_in_run(seqs, oks, j), seqs[j], oks[j]);
        assert(accepted_in_run(seqs, oks, j).contains(seqs[i]));
    }
}

/// Why a message could not be sealed or opened.
#[derive(Debug, Clone, Copy, PartialEq, Eq, Structural)]
pub enum SessionError {
    /// Fewer than the 8 bytes of the sequence number.
    TooShort,
    /// The replay window refused the sequence number.
    Replay(ReplayReject),
    /// Encryption or decryption failed.
    Crypto(CryptoError),
    /// The decrypted bytes are not a tunnel message.
    Decode(DecodeError),
}

/// Per-session encryption state: the key, the next sequence number to send, and the
/// replay window of received numbers. Wire format of a sealed message:
/// `[sequence number, 8 bytes big-endian][ciphertext]`, the number doubling as nonce.
#[derive(Debug)]
pub struct SessionCrypto {
    pub key: AeadKey,
    pub send_seq: u64,
    pub recv_replay: RecvReplayState,
}

/// The number after `n` on a wrapping 64-bit counter.
pub open spec fn wrapping_next(n: u64) -> u64 {
    if n == u64::MAX {
        0
    } else {
        (n + 1) as u64
    }
}

/// `h` with its sequence number set to `seq`.
pub open spec fn with_seq(h: Header, seq: u64) -> Header {
    Header { seq, ..h }
}

/// What opening `data` under `key` with the replay window `window` gives: the decoded
/// header and payload, or the first check that failed.
pub open spec fn open_outcome(key: Seq<u8>, window: RecvReplayState, data: Seq<u8>) -> Result<
    (Header, Seq<u8>),
    SessionError,
> {
    if data.len() < 8 {
        Err(SessionError::TooShort)
    } else {
        let seq = from_be_u64(data.take(8));
        if window.refuses(seq) {
            Err(SessionError::Replay(window.refusal(seq)))
        } else {
            match opened(key, seq, data.skip(8)) {
                None => Err(SessionError::Crypto(CryptoError::Decrypt)),
                Some(pt) => match parse_tunnel(pt) {
                    Ok((h, p)) => Ok((h, p)),
                    Err(e) => Err(SessionError::Decode(e)),
                },
            }
        }
    }
}

impl SessionCrypto {
    pub open spec fn wf(&self) -> bool {
        self.recv_replay.wf()
    }

    pub fn new(key: AeadKey) -> (r: Self)
        ensures
            r.wf(),
            r.key == key,
            r.send_seq == 1,
            r.recv_replay.highest == 0,
            forall|b: int| !r.recv_replay.seen(b),
    {
        SessionCrypto { key, send_seq: 1, recv_replay: RecvReplayState::new() }
    }

    /// Take the next sequence number to send (the counter wraps like an atomic add).
    pub fn next_seq(&mut self) -> (r: u64)
        ensures
            r == old(self).send_seq,
            final(self).send_seq == wrapping_next(old(self).send_seq),
            final(self).key == old(self).key,
            final(self).recv_replay == old(self).recv_replay,
    {
        let seq = self.send_seq;
        self.send_seq = seq.wrapping_add(1);
        seq
    }

    /// Number, encode and encrypt a message. The message takes the next send sequence
    /// number, which also prefixes the ciphertext; opening the ciphertext under the same
    /// key and number gives the encoded message back.
    pub fn seal_message(&mut self, msg: TunnelMessage) -> (r: Result<Vec<u8>, SessionError>)
        requires
            msg.payload@.len() + 64 <= isize::MAX,
        ensures
            final(self).send_seq == wrapping_next(old(self).send_seq),
            final(self).key == old(self).key,
            final(self).recv_replay == old(self).recv_replay,
            ({
                let seq = old(self).send_seq;
                let pt = tunnel_bytes(with_seq(msg.header, seq), msg.payload@);
                &&& sealable_len(pt.len()) ==> (r matches Ok(v) && v@ == be_u64(seq) + sealed(old(self).key@, seq, pt)
                    && opened(old(self).key@, seq, v@.skip(8)) == Some(pt))
                &&& !sealable_len(pt.len()) ==> r == Err::<Vec<u8>, SessionError>(
                    SessionError::Crypto(CryptoError::Encrypt),
                )
            }),
    {
        let seq = self.next_seq();
        let ghost h0 = msg.header;
        let mut msg = msg;
        msg.header.seq = seq;
        assert(msg.header == with_seq(h0, seq));
        let encoded = match encode(&msg) {
            Ok(e) => e,
            Err(e) => return Err(SessionError::Decode(e)),
        };
        let ct = match seal(&self.key, seq, encoded.as_slice()) {
            Ok(c) => c,
            Err(e) => return Err(SessionError::Crypto(e)),
        };
        let mut out: Vec<u8> = Vec::new();
        put_be_u64(&mut out, seq);
        put_bytes(&mut out, ct.as_slice());
        assert(out@.skip(8) =~= ct@);
        Ok(out)
    }

    /// Check the sequence number against the replay window, then decrypt and decode.
    /// The number is recorded as seen once the window accepts it, before decryption.
    pub fn open_message(&mut self, data: &[u8]) -> (r: Result<TunnelMessage, SessionError>)
        requires
            old(self).wf(),
        ensures
            final(self).wf(),
            final(self).key == old(self).key,
            final(self).send_seq == old(self).send_seq,
            match (r, open_outcome(old(self).key@, old(self).recv_replay, data@)) {
                (Ok(m), Ok((h, p))) => m.header == h && m.payload@ == p,
                (Err(e), Err(f)) => e == f,
                _ => false,
            },
            data@.len() < 8 || old(self).recv_replay.refuses(from_be_u64(data@.take(8))) ==> final(self).recv_replay@
                == old(self).recv_replay@,
            data@.len() >= 8 && !old(self).recv_replay.refuses(from_be_u64(data@.take(8)))
                ==> old(self).recv_replay.accepted(from_be_u64(data@.take(8)), final(self).recv_replay),
    {
        if data.len() < 8 {
            return Err(SessionError::TooShort);
        }
        let seq = get_be_u64(data, 0);
        assert(data@.subrange(0, 8) =~= data@.take(8));
        match self.recv_replay.check_and_update(seq) {
            Ok(()) => {},
            Err(rej) => return Err(SessionError::Replay(rej)),
        }
        let ct = crate::codec::copy_range(data, 8, data.len());
        assert(ct@ =~= data@.skip(8));
        let pt = match open(&self.key, seq, ct.as_slice()) {
            Ok(p) => p,
            Err(e) => return Err(SessionError::Crypto(e)),
        };
        match decode(pt.as_slice()) {
            Ok(m) => Ok(m),
            Err(e) => Err(SessionError::Decode(e)),
        }
    }
}

/// A sealed message opens to the message it sealed: if the ciphertext after the 8-byte
/// sequence number opens to the encoded message, and the receiving window does not
/// refuse the number, opening gives back the header and payload.
pub proof fn lemma_sealed_message_opens(
    key: Seq<u8>,
    window: RecvReplayState,
    seq: u64,
    ct: Seq<u8>,
    h: Header,
    payload: Seq<u8>,
)
    requires
        payload.len() <= u64::MAX,
        opened(key, seq, ct) == Some(tunnel_bytes(h, payload)),
        !window.refuses(seq),
    ensures
        open_outcome(key, window, be_u64(seq) + ct) == Ok::<(Header, Seq<u8>), SessionError>((h, payload)),
{
    let data = be_u64(seq) + ct;
    lemma_be_u64(seq);
    assert(data.take(8) =~= be_u64(seq));
    assert(data.skip(8) =~= ct);
    lemma_tunnel_roundtrip(h, payload, Seq::empty());
    assert(tunnel_bytes(h, payload) + Seq::<u8>::empty() =~= tunnel_bytes(h, payload));
}

} // verus!
