//! The protocol buffer wire format: varints and the field records that a
//! message is made of.
use vstd::prelude::*;

verus! {

/// `128` to the power `k`.
pub open spec fn pow128(k: nat) -> nat
    decreases k,
{
    if k == 0 {
        1
    } else {
        pow128((k - 1) as nat) * 128
    }
}

/// Reads the groups of seven bits of a varint from `pos` on, the `k`-th group
/// being the first one read, and adds them to `acc`. A varint is at most ten
/// bytes long; every byte but the last has its top bit set.
pub open spec fn varint_acc(s: Seq<u8>, pos: int, k: nat, acc: nat) -> Option<(nat, int)>
    decreases 10 - k,
{
    if k >= 10 || pos < 0 || pos >= s.len() {
        None
    } else {
        let next = acc + (s[pos] % 128) as nat * pow128(k);
        if s[pos] < 128 {
            Some((next, pos + 1))
        } else {
            varint_acc(s, pos + 1, k + 1, next)
        }
    }
}

/// The varint that starts at `pos`, with the position just after it; `None`
/// where it runs past the end, is longer than ten bytes, or does not fit in
/// 64 bits.
pub open spec fn varint_at(s: Seq<u8>, pos: int) -> Option<(u64, int)> {
    match varint_acc(s, pos, 0, 0) {
        Some((v, e)) => if v <= u64::MAX {
            Some((v as u64, e))
        } else {
            None
        },
        None => None,
    }
}

proof fn lemma_pow128_mono(a: nat, b: nat)
    requires
        a <= b,
    ensures
        pow128(a) <= pow128(b),
    decreases b - a,
{
    if a < b {
        lemma_pow128_mono(a, (b - 1) as nat);
    }
}

proof fn lemma_varint_advances(s: Seq<u8>, pos: int, k: nat, acc: nat)
    ensures
        varint_acc(s, pos, k, acc) matches Some((v, e)) ==> pos < e <= s.len(),
    decreases 10 - k,
{
    if !(k >= 10 || pos < 0 || pos >= s.len()) && s[pos] >= 128 {
        lemma_varint_advances(s, pos + 1, k + 1, acc + (s[pos] % 128) as nat * pow128(k));
    }
}

/// Reads the varint that starts at `pos`.
pub fn read_varint(s: &[u8], pos: usize) -> (r: Option<(u64, usize)>)
    ensures
        match r {
            Some((v, e)) => varint_at(s@, pos as int) == Some((v, e as int)),
            None => varint_at(s@, pos as int) is None,
        },
{
    let len = s.len();
    let mut acc: u128 = 0;
    let mut mult: u128 = 1;
    let mut k: usize = 0;
    let mut p: usize = pos;
    proof {
        reveal_with_fuel(pow128, 11);
    }
    while k < 10
        invariant
            len == s@.len(),
            k <= 10,
            p == pos + k,
            mult == pow128(k as nat),
            acc < mult,
            pow128(10) == 0x400000000000000000,
            varint_acc(s@, pos as int, 0, 0) == varint_acc(s@, p as int, k as nat, acc as nat),
        decreases 10 - k,
    {
        if p >= len {
            return None;
        }
        let b = s[p];
        proof {
            lemma_pow128_mono((k + 1) as nat, 10);
        }
        assert(acc + (b % 128) * mult < mult * 128) by (nonlinear_arith)
            requires
                acc < mult,
                b % 128 < 128,
        ;
        let next: u128 = acc + (b % 128) as u128 * mult;
        if b < 128 {
            if next <= u64::MAX as u128 {
                return Some((next as u64, p + 1));
            } else {
                return None;
            }
        }
        acc = next;
        mult = mult * 128;
        k = k + 1;
        p = p + 1;
    }
    None
}

/// How the value of a field is laid out.
#[derive(Debug, Clone, Copy, PartialEq, Eq, Structural)]
pub enum WireKind {
    Varint,
    Fixed64,
    Bytes,
    Fixed32,
}

/// One field record of a message. A varint field keeps its value in `value`.
/// The contents of a length-delimited field lie at `start..end` of the
/// message bytes, and `value` is their length. Of a fixed-width field only
/// its place is kept.
#[derive(Debug, Clone, Copy, PartialEq, Eq, Structural)]
pub struct WireField {
    pub number: u64,
    pub kind: WireKind,
    pub value: u64,
    pub start: usize,
    pub end: usize,
}

/// The field record that starts at `pos`, with the position just after it.
/// Its key is a varint below `2^32` whose low three bits give the wire type
/// (0, 1, 2 or 5) and whose other bits give a nonzero field number.
pub open spec fn field_at(s: Seq<u8>, pos: int) -> Option<(WireField, int)> {
    match varint_at(s, pos) {
        None => None,
        Some((tag, p)) => {
            let number = tag / 8;
            let wt = tag % 8;
            if number == 0 || tag > u32::MAX {
                None
            } else if wt == 0 {
                match varint_at(s, p) {
                    Some((v, q)) => Some(
                        (WireField { number, kind: WireKind::Varint, value: v, start: 0, end: 0 }, q),
                    ),
                    None => None,
                }
            } else if wt == 1 {
                if p + 8 <= s.len() {
                    Some(
                        (
                            WireField {
                                number,
                                kind: WireKind::Fixed64,
                                value: 0,
                                start: p as usize,
                                end: (p + 8) as usize,
                            },
                            p + 8,
                        ),
                    )
                } else {
                    None
                }
            } else if wt == 2 {
                match varint_at(s, p) {
                    Some((n, q)) => if q + n <= s.len() {
                        Some(
                            (
                                WireField {
                                    number,
                                    kind: WireKind::Bytes,
                                    value: n,
                                    start: q as usize,
                                    end: (q + n) as usize,
                                },
                                q + n,
                            ),
                        )
                    } else {
                        None
                    },
                    None => None,
                }
            } else if wt == 5 {
                if p + 4 <= s.len() {
                    Some(
                        (
                            WireField {
                                number,
                                kind: WireKind::Fixed32,
                                value: 0,
                                start: p as usize,
                                end: (p + 4) as usize,
                            },
                            p + 4,
                        ),
                    )
                } else {
                    None
                }
            } else {
                None
            }
        },
    }
}

/// The field records of the message bytes from `pos` to the end.
pub open spec fn fields_from(s: Seq<u8>, pos: int) -> Option<Seq<WireField>>
    decreases s.len() - pos,
{
    if pos < 0 || pos >= s.len() {
        Some(Seq::empty())
    } else {
        match field_at(s, pos) {
            Some((f, next)) => if pos < next <= s.len() {
                match fields_from(s, next) {
                    Some(rest) => Some(seq![f] + rest),
                    None => None,
                }
            } else {
                None
            },
            None => None,
        }
    }
}

/// The field records of a whole message.
pub open spec fn fields_of(s: Seq<u8>) -> Option<Seq<WireField>> {
    fields_from(s, 0)
}

/// Every field record lies inside the message and a length-delimited one
/// spans `start..end`.
pub open spec fn fields_in(s: Seq<u8>, fs: Seq<WireField>) -> bool {
    forall|i: int|
        0 <= i < fs.len() ==> #[trigger] fs[i].start <= fs[i].end && fs[i].end <= s.len()
}

proof fn lemma_field_advances(s: Seq<u8>, pos: int)
    requires
        s.len() <= usize::MAX,
    ensures
        field_at(s, pos) matches Some((f, e)) ==> pos < e <= s.len() && f.start <= f.end
            <= s.len(),
{
    lemma_varint_advances(s, pos, 0, 0);
    if let Some((tag, p)) = varint_at(s, pos) {
        lemma_varint_advances(s, p, 0, 0);
    }
}

/// Reads the field record that starts at `pos`.
fn read_field(s: &[u8], pos: usize) -> (r: Option<(WireField, usize)>)
    ensures
        match r {
            Some((f, e)) => field_at(s@, pos as int) == Some((f, e as int)),
            None => field_at(s@, pos as int) is None,
        },
{
    let len = s.len();
    proof {
        lemma_field_advances(s@, pos as int);
        lemma_varint_advances(s@, pos as int, 0, 0);
    }
    let (tag, p) = match read_varint(s, pos) {
        Some(t) => t,
        None => return None,
    };
    proof {
        lemma_varint_advances(s@, p as int, 0, 0);
    }
    let number = tag / 8;
    let wt = tag % 8;
    if number == 0 || tag > u32::MAX as u64 {
        return None;
    }
    if wt == 0 {
        match read_varint(s, p) {
            Some((v, q)) => Some(
                (WireField { number, kind: WireKind::Varint, value: v, start: 0, end: 0 }, q),
            ),
            None => None,
        }
    } else if wt == 1 {
        if p <= len && 8 <= len - p {
            Some(
                (
                    WireField {
                        number,
                        kind: WireKind::Fixed64,
                        value: 0,
                        start: p,
                        end: p + 8,
                    },
                    p + 8,
                ),
            )
        } else {
            None
        }
    } else if wt == 2 {
        match read_varint(s, p) {
            Some((n, q)) => {
                proof {
                    lemma_varint_advances(s@, p as int, 0, 0);
                }
                if n <= (len - q) as u64 {
                    let e = q + n as usize;
                    Some(
                        (
                            WireField { number, kind: WireKind::Bytes, value: n, start: q, end: e },
                            e,
                        ),
                    )
                } else {
                    None
                }
            },
            None => None,
        }
    } else if wt == 5 {
        if p <= len && 4 <= len - p {
            Some(
                (
                    WireField {
                        number,
                        kind: WireKind::Fixed32,
                        value: 0,
                        start: p,
                        end: p + 4,
                    },
                    p + 4,
                ),
            )
        } else {
            None
        }
    } else {
        None
    }
}

proof fn lemma_fields_in(s: Seq<u8>, pos: int)
    requires
        s.len() <= usize::MAX,
    ensures
        fields_from(s, pos) matches Some(fs) ==> fields_in(s, fs),
    decreases s.len() - pos,
{
    if !(pos < 0 || pos >= s.len()) {
        lemma_field_advances(s, pos);
        if let Some((f, next)) = field_at(s, pos) {
            if pos < next <= s.len() {
                lemma_fields_in(s, next);
                if let Some(rest) = fields_from(s, next) {
                    let fs = seq![f] + rest;
                    assert forall|i: int| 0 <= i < fs.len() implies #[trigger] fs[i].start
                        <= fs[i].end && fs[i].end <= s.len() by {
                        if i > 0 {
                            assert(fs[i] == rest[i - 1]);
                        }
                    }
                }
            }
        }
    }
}

/// Splits a message into its field records.
pub fn read_fields(s: &[u8]) -> (r: Option<Vec<WireField>>)
    ensures
        match r {
            Some(v) => fields_of(s@) == Some(v@) && fields_in(s@, v@),
            None => fields_of(s@) is None,
        },
{
    let len = s.len();
    let mut out: Vec<WireField> = Vec::new();
    let mut pos: usize = 0;
    while pos < len
        invariant
            len == s@.len(),
            pos <= len,
            fields_of(s@) == (match fields_from(s@, pos as int) {
                Some(rest) => Some(out@ + rest),
                None => None::<Seq<WireField>>,
            }),
        decreases len - pos,
    {
        proof {
            lemma_field_advances(s@, pos as int);
        }
        match read_field(s, pos) {
            Some((f, next)) => {
                proof {
                    match fields_from(s@, next as int) {
                        Some(rest) => {
                            assert(out@ + (seq![f] + rest) =~= out@.push(f) + rest);
                        },
                        None => {},
                    }
                }
                out.push(f);
                pos = next;
            },
            None => {
                return None;
            },
        }
    }
    assert(out@ + Seq::<WireField>::empty() =~= out@);
    proof {
        lemma_fields_in(s@, 0);
    }
    Some(out)
}

} // verus!
