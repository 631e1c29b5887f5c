//! Reconfiguration operations and their wire format.
//!
//! A device is reconfigured through named operations whose arguments travel
//! as bytes: integers are eight bytes little-endian, a string is a length
//! followed by its bytes, and a list is a length followed by its elements.
//! The decoders below check the bytes and reject malformed payloads.

use vstd::prelude::*;

verus! {

/// The integer read from eight little-endian bytes.
pub open spec fn spec_u64_le(s: Seq<u8>, pos: int) -> u64 {
    (s[pos] as u64) | (s[pos + 1] as u64) << 8 | (s[pos + 2] as u64) << 16 | (s[pos + 3] as u64)
        << 24 | (s[pos + 4] as u64) << 32 | (s[pos + 5] as u64) << 40 | (s[pos + 6] as u64) << 48
        | (s[pos + 7] as u64) << 56
}

/// Decoding an integer: eight little-endian bytes, when available.
pub open spec fn spec_dec_u64(s: Seq<u8>, pos: int) -> Option<(u64, int)> {
    if 0 <= pos && pos + 8 <= s.len() {
        Some((spec_u64_le(s, pos), pos + 8))
    } else {
        None
    }
}

/// Decoding a size: an integer that fits the platform's size type.
pub open spec fn spec_dec_usize(s: Seq<u8>, pos: int) -> Option<(usize, int)> {
    match spec_dec_u64(s, pos) {
        Some((v, p)) => if v <= usize::MAX as u64 {
            Some((v as usize, p))
        } else {
            None
        },
        None => None,
    }
}

/// Decoding a string: a byte length followed by that many bytes of UTF-8.
pub open spec fn spec_dec_string(s: Seq<u8>, pos: int) -> Option<(Seq<char>, int)> {
    match spec_dec_usize(s, pos) {
        Some((n, p)) => if p + n <= s.len() && vstd::utf8::valid_utf8(s.subrange(p, p + n)) {
            Some((vstd::utf8::decode_utf8(s.subrange(p, p + n)), p + n))
        } else {
            None
        },
        None => None,
    }
}

/// Decoding a fixed number of (qubit, tweezer) pairs.
pub open spec fn spec_dec_pairs(s: Seq<u8>, pos: int, n: int) -> Option<(
    Seq<(usize, usize)>,
    int,
)>
    decreases n,
{
    if n <= 0 {
        Some((Seq::empty(), pos))
    } else {
        match spec_dec_usize(s, pos) {
            None => None,
            Some((a, p1)) => match spec_dec_usize(s, p1) {
                None => None,
                Some((b, p2)) => match spec_dec_pairs(s, p2, n - 1) {
                    None => None,
                    Some((rest, pe)) => Some((seq![(a, b)] + rest, pe)),
                },
            },
        }
    }
}

/// Decoding a fixed number of (qubit, row, column) position records.
pub open spec fn spec_dec_positions(s: Seq<u8>, pos: int, n: int) -> Option<(
    Seq<(usize, (usize, usize))>,
    int,
)>
    decreases n,
{
    if n <= 0 {
        Some((Seq::empty(), pos))
    } else {
        match spec_dec_usize(s, pos) {
            None => None,
            Some((q, p1)) => match spec_dec_usize(s, p1) {
                None => None,
                Some((row, p2)) => match spec_dec_usize(s, p2) {
                    None => None,
                    Some((col, p3)) => match spec_dec_positions(s, p3, n - 1) {
                        None => None,
                        Some((rest, pe)) => Some((seq![(q, (row, col))] + rest, pe)),
                    },
                },
            },
        }
    }
}

/// Reads an integer from eight little-endian bytes.
pub fn dec_u64(b: &[u8], pos: usize) -> (r: Option<(u64, usize)>)
    ensures
        match r {
            Some((v, p)) => spec_dec_u64(b@, pos as int) == Some((v, p as int)),
            None => spec_dec_u64(b@, pos as int) is None,
        },
{
    if pos > b.len() || b.len() - pos < 8 {
        return None;
    }
    let v: u64 = (b[pos] as u64) | (b[pos + 1] as u64) << 8u64 | (b[pos + 2] as u64) << 16u64 | (
    b[pos + 3] as u64) << 24u64 | (b[pos + 4] as u64) << 32u64 | (b[pos + 5] as u64) << 40u64 | (
    b[pos + 6] as u64) << 48u64 | (b[pos + 7] as u64) << 56u64;
    Some((v, pos + 8))
}

/// Reads a size, rejecting values beyond the platform's size type.
pub fn dec_usize(b: &[u8], pos: usize) -> (r: Option<(usize, usize)>)
    ensures
        match r {
            Some((v, p)) => spec_dec_usize(b@, pos as int) == Some((v, p as int)),
            None => spec_dec_usize(b@, pos as int) is None,
        },
{
    match dec_u64(b, pos) {
        Some((v, p)) => {
            if v <= usize::MAX as u64 {
                Some((v as usize, p))
            } else {
                None
            }
        },
        None => None,
    }
}

/// Relies on str::from_utf8: it accepts exactly the valid UTF-8 byte
/// sequences and yields the characters they encode.
#[verifier::external_body]
fn utf8_to_string(b: &[u8]) -> (r: Option<String>)
    ensures
        match r {
            Some(s) => vstd::utf8::valid_utf8(b@) && s@ == vstd::utf8::decode_utf8(b@),
            None => !vstd::utf8::valid_utf8(b@),
        },
{
    match core::str::from_utf8(b) {
        Ok(s) => Some(s.to_string()),
        Err(_) => None,
    }
}

/// Reads a byte-length-prefixed UTF-8 string.
pub fn dec_string(b: &[u8], pos: usize) -> (r: Option<(String, usize)>)
    ensures
        match r {
            Some((v, p)) => (spec_dec_string(b@, pos as int) matches Some((cs, pe)) && v@ == cs
                && p == pe),
            None => spec_dec_string(b@, pos as int) is None,
        },
{
    let (n, p) = match dec_usize(b, pos) {
        Some(x) => x,
        None => {
            return None;
        },
    };
    if n > b.len() || b.len() - n < p {
        return None;
    }
    let sub = vstd::slice::slice_subrange(b, p, p + n);
    match utf8_to_string(sub) {
        Some(out) => Some((out, p + n)),
        None => None,
    }
}

/// Reads a fixed number of (qubit, tweezer) pairs.
pub fn dec_pairs(b: &[u8], pos: usize, n: usize) -> (r: Option<(Vec<(usize, usize)>, usize)>)
    ensures
        match r {
            Some((v, p)) => (spec_dec_pairs(b@, pos as int, n as int) matches Some((es, pe)) && v@
                == es && p == pe),
            None => spec_dec_pairs(b@, pos as int, n as int) is None,
        },
{
    let mut out: Vec<(usize, usize)> = Vec::new();
    let mut cur: usize = pos;
    let mut k: usize = 0;
    while k < n
        invariant
            k <= n,
            spec_dec_pairs(b@, pos as int, n as int) == (match spec_dec_pairs(
                b@,
                cur as int,
                n - k,
            ) {
                Some((tail, pe)) => Some::<(Seq<(usize, usize)>, int)>((out@ + tail, pe)),
                None => None::<(Seq<(usize, usize)>, int)>,
            }),
        decreases n - k,
    {
        let ghost out_old = out@;
        let (a, p1) = match dec_usize(b, cur) {
            Some(x) => x,
            None => {
                return None;
            },
        };
        let (bb, p2) = match dec_usize(b, p1) {
            Some(x) => x,
            None => {
                return None;
            },
        };
        out.push((a, bb));
        proof {
            assert forall|tail: Seq<(usize, usize)>| true implies out_old + (seq![(a, bb)] + tail)
                =~= out@ + tail by {}
        }
        cur = p2;
        k += 1;
    }
    proof {
        assert(out@ + Seq::<(usize, usize)>::empty() =~= out@);
    }
    Some((out, cur))
}

/// Reads a fixed number of (qubit, row, column) records.
pub fn dec_positions(b: &[u8], pos: usize, n: usize) -> (r: Option<
    (Vec<(usize, (usize, usize))>, usize),
>)
    ensures
        match r {
            Some((v, p)) => (spec_dec_positions(b@, pos as int, n as int) matches Some((es, pe))
                && v@ == es && p == pe),
            None => spec_dec_positions(b@, pos as int, n as int) is None,
        },
{
    let mut out: Vec<(usize, (usize, usize))> = Vec::new();
    let mut cur: usize = pos;
    let mut k: usize = 0;
    while k < n
        invariant
            k <= n,
            spec_dec_positions(b@, pos as int, n as int) == (match spec_dec_positions(
                b@,
                cur as int,
                n - k,
            ) {
                Some((tail, pe)) => Some::<(Seq<(usize, (usize, usize))>, int)>((out@ + tail, pe)),
                None => None::<(Seq<(usize, (usize, usize))>, int)>,
            }),
        decreases n - k,
    {
        let ghost out_old = out@;
        let (q, p1) = match dec_usize(b, cur) {
            Some(x) => x,
            None => {
                return None;
            },
        };
        let (row, p2) = match dec_usize(b, p1) {
            Some(x) => x,
            None => {
                return None;
            },
        };
        let (col, p3) = match dec_usize(b, p2) {
            Some(x) => x,
            None => {
                return None;
            },
        };
        out.push((q, (row, col)));
        proof {
            assert forall|tail: Seq<(usize, (usize, usize))>| true implies out_old + (seq![
                (q, (row, col)),
            ] + tail) =~= out@ + tail by {}
        }
        cur = p3;
        k += 1;
    }
    proof {
        assert(out@ + Seq::<(usize, (usize, usize))>::empty() =~= out@);
    }
    Some((out, cur))
}

/// A layout change by index: the legacy reconfiguration operation of the
/// grid-based devices.
#[derive(Clone, Copy, Debug, PartialEq, Eq, Structural)]
pub struct PragmaChangeQRydLayout {
    /// The index of the layout to switch to.
    pub new_layout: usize,
}

impl PragmaChangeQRydLayout {
    /// Wraps a layout index.
    pub fn new(new_layout: usize) -> (r: Self)
        ensures
            r.new_layout == new_layout,
    {
        PragmaChangeQRydLayout { new_layout }
    }

    /// The index of the layout to switch to.
    pub fn new_layout(&self) -> (r: usize)
        ensures
            r == self.new_layout,
    {
        self.new_layout
    }

    /// Reads the operation from its byte encoding: one integer.
    pub fn from_bytes(b: &[u8]) -> (r: Option<Self>)
        ensures
            r == (match spec_dec_usize(b@, 0) {
                Some((v, p)) => Some(PragmaChangeQRydLayout { new_layout: v }),
                None => None::<PragmaChangeQRydLayout>,
            }),
    {
        match dec_usize(b, 0) {
            Some((v, _)) => Some(PragmaChangeQRydLayout { new_layout: v }),
            None => None,
        }
    }
}

/// A layout switch by name: the dynamic reconfiguration operation of the
/// tweezer devices.
#[derive(Clone, Debug)]
pub struct PragmaSwitchDeviceLayout {
    /// The name of the layout to switch to.
    pub new_layout: String,
}

impl PragmaSwitchDeviceLayout {
    /// Wraps a layout name.
    pub fn new(new_layout: String) -> (r: Self)
        ensures
            r.new_layout == new_layout,
    {
        PragmaSwitchDeviceLayout { new_layout }
    }

    /// The name of the layout to switch to.
    pub fn new_layout(&self) -> (r: &String)
        ensures
            r == self.new_layout,
    {
        &self.new_layout
    }

    /// Reads the operation from its byte encoding: one string.
    pub fn from_bytes(b: &[u8]) -> (r: Option<Self>)
        ensures
            match r {
                Some(v) => (spec_dec_string(b@, 0) matches Some((cs, p)) && v.new_layout@ == cs),
                None => spec_dec_string(b@, 0) is None,
            },
    {
        match dec_string(b, 0) {
            Some((v, _)) => Some(PragmaSwitchDeviceLayout { new_layout: v }),
            None => None,
        }
    }
}

/// An ordered list of qubit moves between tweezers: each pair names a qubit
/// and the destination tweezer.
#[derive(Clone, Debug)]
pub struct PragmaShiftQubitsTweezers {
    /// The moves, applied in order.
    pub shifts: Vec<(usize, usize)>,
}

impl PragmaShiftQubitsTweezers {
    /// Wraps a list of moves.
    pub fn new(shifts: Vec<(usize, usize)>) -> (r: Self)
        ensures
            r.shifts == shifts,
    {
        PragmaShiftQubitsTweezers { shifts }
    }

    /// The moves, in application order.
    pub fn shifts(&self) -> (r: &Vec<(usize, usize)>)
        ensures
            r == self.shifts,
    {
        &self.shifts
    }

    /// Reads the operation from its byte encoding: a length-prefixed list of
    /// pairs.
    pub fn from_bytes(b: &[u8]) -> (r: Option<Self>)
        ensures
            match r {
                Some(v) => (spec_dec_usize(b@, 0) matches Some((n, p)) && (spec_dec_pairs(
                    b@,
                    p,
                    n as int,
                ) matches Some((es, pe)) && v.shifts@ == es)),
                None => (spec_dec_usize(b@, 0) is None || (spec_dec_usize(b@, 0) matches Some(
                    (n, p),
                ) && spec_dec_pairs(b@, p, n as int) is None)),
            },
    {
        let (n, p) = match dec_usize(b, 0) {
            Some(x) => x,
            None => {
                return None;
            },
        };
        match dec_pairs(b, p, n) {
            Some((v, _)) => Some(PragmaShiftQubitsTweezers { shifts: v }),
            None => None,
        }
    }
}

/// New grid positions for qubits: each record names a qubit and its new
/// (row, column) position. This is the legacy reconfiguration operation of
/// the grid-based devices.
#[derive(Clone, Debug)]
pub struct PragmaShiftQRydQubit {
    /// The new position of each named qubit.
    pub new_positions: Vec<(usize, (usize, usize))>,
}

impl PragmaShiftQRydQubit {
    /// Wraps a position table.
    pub fn new(new_positions: Vec<(usize, (usize, usize))>) -> (r: Self)
        ensures
            r.new_positions == new_positions,
    {
        PragmaShiftQRydQubit { new_positions }
    }

    /// The new position of each named qubit.
    pub fn new_positions(&self) -> (r: &Vec<(usize, (usize, usize))>)
        ensures
            r == self.new_positions,
    {
        &self.new_positions
    }

    /// Reads the operation from its byte encoding: a length-prefixed list of
    /// position records.
    pub fn from_bytes(b: &[u8]) -> (r: Option<Self>)
        ensures
            match r {
                Some(v) => (spec_dec_usize(b@, 0) matches Some((n, p)) && (spec_dec_positions(
                    b@,
                    p,
                    n as int,
                ) matches Some((es, pe)) && v.new_positions@ == es)),
                None => (spec_dec_usize(b@, 0) is None || (spec_dec_usize(b@, 0) matches Some(
                    (n, p),
                ) && spec_dec_positions(b@, p, n as int) is None)),
            },
    {
        let (n, p) = match dec_usize(b, 0) {
            Some(x) => x,
            None => {
                return None;
            },
        };
        match dec_positions(b, p, n) {
            Some((v, _)) => Some(PragmaShiftQRydQubit { new_positions: v }),
            None => None,
        }
    }
}


/// The eight little-endian bytes of an integer.
pub open spec fn spec_enc_u64(v: u64) -> Seq<u8> {
    seq![
        v as u8,
        (v >> 8) as u8,
        (v >> 16) as u8,
        (v >> 24) as u8,
        (v >> 32) as u8,
        (v >> 40) as u8,
        (v >> 48) as u8,
        (v >> 56) as u8,
    ]
}

/// The encoding of a size: its value as an integer.
pub open spec fn spec_enc_usize(v: usize) -> Seq<u8> {
    spec_enc_u64(v as u64)
}

/// The encoding of a list of (qubit, tweezer) pairs, first pair first.
pub open spec fn spec_enc_pairs(es: Seq<(usize, usize)>) -> Seq<u8>
    decreases es.len(),
{
    if es.len() == 0 {
        Seq::empty()
    } else {
        spec_enc_usize(es[0].0) + spec_enc_usize(es[0].1) + spec_enc_pairs(es.skip(1))
    }
}

/// The encoding of a list of (qubit, row, column) records, first record
/// first.
pub open spec fn spec_enc_positions(es: Seq<(usize, (usize, usize))>) -> Seq<u8>
    decreases es.len(),
{
    if es.len() == 0 {
        Seq::empty()
    } else {
        spec_enc_usize(es[0].0) + spec_enc_usize(es[0].1.0) + spec_enc_usize(es[0].1.1)
            + spec_enc_positions(es.skip(1))
    }
}

/// Reading eight encoded bytes back gives the encoded integer.
pub proof fn lemma_dec_enc_u64(v: u64, s: Seq<u8>, pos: int)
    requires
        0 <= pos,
        pos + 8 <= s.len(),
        s.subrange(pos, pos + 8) == spec_enc_u64(v),
    ensures
        spec_dec_u64(s, pos) == Some((v, pos + 8)),
{
    assert forall|i: int| 0 <= i < 8 implies s[pos + i] == spec_enc_u64(v)[i] by {
        assert(s.subrange(pos, pos + 8)[i] == s[pos + i]);
    }
    let b0 = v as u8;
    let b1 = (v >> 8) as u8;
    let b2 = (v >> 16) as u8;
    let b3 = (v >> 24) as u8;
    let b4 = (v >> 32) as u8;
    let b5 = (v >> 40) as u8;
    let b6 = (v >> 48) as u8;
    let b7 = (v >> 56) as u8;
    assert((b0 as u64) | (b1 as u64) << 8 | (b2 as u64) << 16 | (b3 as u64) << 24 | (b4 as u64)
        << 32 | (b5 as u64) << 40 | (b6 as u64) << 48 | (b7 as u64) << 56 == v) by (bit_vector)
        requires
            b0 == v as u8,
            b1 == (v >> 8) as u8,
            b2 == (v >> 16) as u8,
            b3 == (v >> 24) as u8,
            b4 == (v >> 32) as u8,
            b5 == (v >> 40) as u8,
            b6 == (v >> 48) as u8,
            b7 == (v >> 56) as u8,
    ;
}

/// Reading an encoded size back gives the encoded value.
pub proof fn lemma_dec_enc_usize(v: usize, s: Seq<u8>, pos: int)
    requires
        0 <= pos,
        pos + 8 <= s.len(),
        s.subrange(pos, pos + 8) == spec_enc_usize(v),
    ensures
        spec_dec_usize(s, pos) == Some((v, pos + 8)),
{
    lemma_dec_enc_u64(v as u64, s, pos);
}

/// An encoded pair list is sixteen bytes per pair.
pub proof fn lemma_enc_pairs_len(es: Seq<(usize, usize)>)
    ensures
        spec_enc_pairs(es).len() == 16 * es.len(),
    decreases es.len(),
{
    if es.len() > 0 {
        lemma_enc_pairs_len(es.skip(1));
    }
}

/// An encoded position list is twenty-four bytes per record.
pub proof fn lemma_enc_positions_len(es: Seq<(usize, (usize, usize))>)
    ensures
        spec_enc_positions(es).len() == 24 * es.len(),
    decreases es.len(),
{
    if es.len() > 0 {
        lemma_enc_positions_len(es.skip(1));
    }
}

/// Reading an encoded pair list back gives the encoded pairs.
pub proof fn lemma_dec_enc_pairs(es: Seq<(usize, usize)>, s: Seq<u8>, pos: int)
    requires
        0 <= pos,
        pos + 16 * es.len() <= s.len(),
        s.subrange(pos, pos + 16 * es.len()) == spec_enc_pairs(es),
    ensures
        spec_dec_pairs(s, pos, es.len() as int) == Some((es, pos + 16 * es.len())),
    decreases es.len(),
{
    lemma_enc_pairs_len(es);
    if es.len() == 0 {
        assert(spec_dec_pairs(s, pos, 0) == Some((Seq::<(usize, usize)>::empty(), pos)));
        assert(es =~= Seq::<(usize, usize)>::empty());
    } else {
        let e = spec_enc_pairs(es);
        lemma_enc_pairs_len(es.skip(1));
        assert(s.subrange(pos, pos + 8) =~= spec_enc_usize(es[0].0)) by {
            assert forall|i: int| 0 <= i < 8 implies s.subrange(pos, pos + 8)[i] == spec_enc_usize(
                es[0].0,
            )[i] by {
                assert(s.subrange(pos, pos + 8)[i] == s[pos + i]);
                assert(s[pos + i] == s.subrange(pos, pos + 16 * es.len())[i]);
                assert(e[i] == spec_enc_usize(es[0].0)[i]);
            }
        }
        lemma_dec_enc_usize(es[0].0, s, pos);
        assert(s.subrange(pos + 8, pos + 16) =~= spec_enc_usize(es[0].1)) by {
            assert forall|i: int|
                0 <= i < 8 implies s.subrange(pos + 8, pos + 16)[i] == spec_enc_usize(
                es[0].1,
            )[i] by {
                assert(s.subrange(pos + 8, pos + 16)[i] == s[pos + 8 + i]);
                assert(s[pos + 8 + i] == s.subrange(pos, pos + 16 * es.len())[8 + i]);
                assert(e[8 + i] == (spec_enc_usize(es[0].0) + spec_enc_usize(es[0].1))[8 + i]);
            }
        }
        lemma_dec_enc_usize(es[0].1, s, pos + 8);
        assert(s.subrange(pos + 16, pos + 16 + 16 * es.skip(1).len()) =~= spec_enc_pairs(
            es.skip(1),
        )) by {
            assert forall|i: int|
                0 <= i < 16 * es.skip(1).len() implies s.subrange(
                pos + 16,
                pos + 16 + 16 * es.skip(1).len(),
            )[i] == spec_enc_pairs(es.skip(1))[i] by {
                assert(s.subrange(pos + 16, pos + 16 + 16 * es.skip(1).len())[i] == s[pos + 16
                    + i]);
                assert(s[pos + 16 + i] == s.subrange(pos, pos + 16 * es.len())[16 + i]);
                assert(e[16 + i] == spec_enc_pairs(es.skip(1))[i]);
            }
        }
        lemma_dec_enc_pairs(es.skip(1), s, pos + 16);
        assert(seq![es[0]] + es.skip(1) =~= es);
    }
}

/// Reading an encoded position list back gives the encoded records.
pub proof fn lemma_dec_enc_positions(es: Seq<(usize, (usize, usize))>, s: Seq<u8>, pos: int)
    requires
        0 <= pos,
        pos + 24 * es.len() <= s.len(),
        s.subrange(pos, pos + 24 * es.len()) == spec_enc_positions(es),
    ensures
        spec_dec_positions(s, pos, es.len() as int) == Some((es, pos + 24 * es.len())),
    decreases es.len(),
{
    lemma_enc_positions_len(es);
    if es.len() == 0 {
        assert(es =~= Seq::<(usize, (usize, usize))>::empty());
    } else {
        let e = spec_enc_positions(es);
        lemma_enc_positions_len(es.skip(1));
        let h0 = spec_enc_usize(es[0].0);
        let h1 = spec_enc_usize(es[0].1.0);
        let h2 = spec_enc_usize(es[0].1.1);
        assert(s.subrange(pos, pos + 8) =~= h0) by {
            assert forall|i: int| 0 <= i < 8 implies s.subrange(pos, pos + 8)[i] == h0[i] by {
                assert(s.subrange(pos, pos + 8)[i] == s[pos + i]);
                assert(s[pos + i] == s.subrange(pos, pos + 24 * es.len())[i]);
                assert(e[i] == h0[i]);
            }
        }
        lemma_dec_enc_usize(es[0].0, s, pos);
        assert(s.subrange(pos + 8, pos + 16) =~= h1) by {
            assert forall|i: int| 0 <= i < 8 implies s.subrange(pos + 8, pos + 16)[i] == h1[i] by {
                assert(s.subrange(pos + 8, pos + 16)[i] == s[pos + 8 + i]);
                assert(s[pos + 8 + i] == s.subrange(pos, pos + 24 * es.len())[8 + i]);
                assert(e[8 + i] == (h0 + h1)[8 + i]);
            }
        }
        lemma_dec_enc_usize(es[0].1.0, s, pos + 8);
        assert(s.subrange(pos + 16, pos + 24) =~= h2) by {
            assert forall|i: int| 0 <= i < 8 implies s.subrange(pos + 16, pos + 24)[i] == h2[
            i] by {
                assert(s.subrange(pos + 16, pos + 24)[i] == s[pos + 16 + i]);
                assert(s[pos + 16 + i] == s.subrange(pos, pos + 24 * es.len())[16 + i]);
                assert(e[16 + i] == (h0 + h1 + h2)[16 + i]);
            }
        }
        lemma_dec_enc_usize(es[0].1.1, s, pos + 16);
        assert(s.subrange(pos + 24, pos + 24 + 24 * es.skip(1).len()) =~= spec_enc_positions(
            es.skip(1),
        )) by {
            assert forall|i: int|
                0 <= i < 24 * es.skip(1).len() implies s.subrange(
                pos + 24,
                pos + 24 + 24 * es.skip(1).len(),
            )[i] == spec_enc_positions(es.skip(1))[i] by {
                assert(s.subrange(pos + 24, pos + 24 + 24 * es.skip(1).len())[i] == s[pos + 24
                    + i]);
                assert(s[pos + 24 + i] == s.subrange(pos, pos + 24 * es.len())[24 + i]);
                assert(e[24 + i] == spec_enc_positions(es.skip(1))[24 + i - 24]);
            }
        }
        lemma_dec_enc_positions(es.skip(1), s, pos + 24);
        assert(seq![es[0]] + es.skip(1) =~= es);
    }
}

/// Appends the eight little-endian bytes of an integer.
pub fn enc_u64(v: u64, out: &mut Vec<u8>)
    ensures
        final(out)@ == old(out)@ + spec_enc_u64(v),
{
    let ghost before = out@;
    out.push(v as u8);
    out.push((v >> 8u64) as u8);
    out.push((v >> 16u64) as u8);
    out.push((v >> 24u64) as u8);
    out.push((v >> 32u64) as u8);
    out.push((v >> 40u64) as u8);
    out.push((v >> 48u64) as u8);
    out.push((v >> 56u64) as u8);
    proof {
        assert(out@ =~= before + spec_enc_u64(v));
    }
}

/// Appends the encoding of a size.
pub fn enc_usize(v: usize, out: &mut Vec<u8>)
    ensures
        final(out)@ == old(out)@ + spec_enc_usize(v),
{
    enc_u64(v as u64, out);
}

/// Appending one more pair to an encoded pair list.
pub proof fn lemma_enc_pairs_push(es: Seq<(usize, usize)>, e: (usize, usize))
    ensures
        spec_enc_pairs(es.push(e)) == spec_enc_pairs(es) + spec_enc_usize(e.0) + spec_enc_usize(
            e.1,
        ),
    decreases es.len(),
{
    reveal_with_fuel(spec_enc_pairs, 3);
    if es.len() == 0 {
        assert(es.push(e)[0] == e);
        assert(es.push(e).skip(1) =~= Seq::<(usize, usize)>::empty());
        assert(spec_enc_pairs(es.push(e)) =~= spec_enc_pairs(es) + spec_enc_usize(e.0)
            + spec_enc_usize(e.1));
    } else {
        assert(es.push(e)[0] == es[0]);
        assert(es.push(e).skip(1) =~= es.skip(1).push(e));
        lemma_enc_pairs_push(es.skip(1), e);
        assert(spec_enc_pairs(es.push(e)) == spec_enc_usize(es[0].0) + spec_enc_usize(es[0].1)
            + spec_enc_pairs(es.skip(1).push(e)));
        assert(spec_enc_pairs(es) == spec_enc_usize(es[0].0) + spec_enc_usize(es[0].1)
            + spec_enc_pairs(es.skip(1)));
        assert(spec_enc_pairs(es.push(e)) =~= spec_enc_pairs(es) + spec_enc_usize(e.0)
            + spec_enc_usize(e.1));
    }
}

/// Appending one more record to an encoded position list.
pub proof fn lemma_enc_positions_push(es: Seq<(usize, (usize, usize))>, e: (usize, (usize, usize)))
    ensures
        spec_enc_positions(es.push(e)) == spec_enc_positions(es) + spec_enc_usize(e.0)
            + spec_enc_usize(e.1.0) + spec_enc_usize(e.1.1),
    decreases es.len(),
{
    reveal_with_fuel(spec_enc_positions, 3);
    if es.len() == 0 {
        assert(es.push(e)[0] == e);
        assert(es.push(e).skip(1) =~= Seq::<(usize, (usize, usize))>::empty());
        assert(spec_enc_positions(es.push(e)) =~= spec_enc_positions(es) + spec_enc_usize(e.0)
            + spec_enc_usize(e.1.0) + spec_enc_usize(e.1.1));
    } else {
        assert(es.push(e)[0] == es[0]);
        assert(es.push(e).skip(1) =~= es.skip(1).push(e));
        lemma_enc_positions_push(es.skip(1), e);
        assert(spec_enc_positions(es.push(e)) == spec_enc_usize(es[0].0) + spec_enc_usize(
            es[0].1.0,
        ) + spec_enc_usize(es[0].1.1) + spec_enc_positions(es.skip(1).push(e)));
        assert(spec_enc_positions(es) == spec_enc_usize(es[0].0) + spec_enc_usize(es[0].1.0)
            + spec_enc_usize(es[0].1.1) + spec_enc_positions(es.skip(1)));
        assert(spec_enc_positions(es.push(e)) =~= spec_enc_positions(es) + spec_enc_usize(e.0)
            + spec_enc_usize(e.1.0) + spec_enc_usize(e.1.1));
    }
}

/// Appends the encoding of a pair list, first pair first.
pub fn enc_pairs(v: &Vec<(usize, usize)>, out: &mut Vec<u8>)
    ensures
        final(out)@ == old(out)@ + spec_enc_pairs(v@),
{
    let ghost before = out@;
    let mut i: usize = 0;
    proof {
        assert(v@.take(0) =~= Seq::<(usize, usize)>::empty());
        assert(before + spec_enc_pairs(v@.take(0)) =~= before);
    }
    while i < v.len()
        invariant
            i <= v@.len(),
            out@ == before + spec_enc_pairs(v@.take(i as int)),
        decreases v@.len() - i,
    {
        let e = v[i];
        enc_usize(e.0, out);
        enc_usize(e.1, out);
        proof {
            assert(v@.take(i as int + 1) =~= v@.take(i as int).push(v@[i as int]));
            lemma_enc_pairs_push(v@.take(i as int), v@[i as int]);
        }
        i += 1;
    }
    proof {
        assert(v@.take(v@.len() as int) =~= v@);
    }
}

/// Appends the encoding of a position list, first record first.
pub fn enc_positions(v: &Vec<(usize, (usize, usize))>, out: &mut Vec<u8>)
    ensures
        final(out)@ == old(out)@ + spec_enc_positions(v@),
{
    let ghost before = out@;
    let mut i: usize = 0;
    proof {
        assert(v@.take(0) =~= Seq::<(usize, (usize, usize))>::empty());
        assert(before + spec_enc_positions(v@.take(0)) =~= before);
    }
    while i < v.len()
        invariant
            i <= v@.len(),
            out@ == before + spec_enc_positions(v@.take(i as int)),
        decreases v@.len() - i,
    {
        let e = v[i];
        enc_usize(e.0, out);
        enc_usize(e.1.0, out);
        enc_usize(e.1.1, out);
        proof {
            assert(v@.take(i as int + 1) =~= v@.take(i as int).push(v@[i as int]));
            lemma_enc_positions_push(v@.take(i as int), v@[i as int]);
        }
        i += 1;
    }
    proof {
        assert(v@.take(v@.len() as int) =~= v@);
    }
}


impl PragmaChangeQRydLayout {
    /// Writes the operation in its byte encoding: one integer.
    pub fn to_bytes(&self) -> (r: Vec<u8>)
        ensures
            r@ == spec_enc_usize(self.new_layout),
    {
        let mut out: Vec<u8> = Vec::new();
        enc_usize(self.new_layout, &mut out);
        proof {
            assert(Seq::<u8>::empty() + spec_enc_usize(self.new_layout) =~= spec_enc_usize(
                self.new_layout,
            ));
        }
        out
    }
}

impl PragmaShiftQubitsTweezers {
    /// Writes the operation in its byte encoding: a length-prefixed list of
    /// pairs.
    pub fn to_bytes(&self) -> (r: Vec<u8>)
        ensures
            r@ == spec_enc_usize(self.shifts@.len() as usize) + spec_enc_pairs(self.shifts@),
    {
        let mut out: Vec<u8> = Vec::new();
        enc_usize(self.shifts.len(), &mut out);
        enc_pairs(&self.shifts, &mut out);
        proof {
            assert(Seq::<u8>::empty() + spec_enc_usize(self.shifts@.len() as usize)
                =~= spec_enc_usize(self.shifts@.len() as usize));
        }
        out
    }
}

impl PragmaShiftQRydQubit {
    /// Writes the operation in its byte encoding: a length-prefixed list of
    /// position records.
    pub fn to_bytes(&self) -> (r: Vec<u8>)
        ensures
            r@ == spec_enc_usize(self.new_positions@.len() as usize) + spec_enc_positions(
                self.new_positions@,
            ),
    {
        let mut out: Vec<u8> = Vec::new();
        enc_usize(self.new_positions.len(), &mut out);
        enc_positions(&self.new_positions, &mut out);
        proof {
            assert(Seq::<u8>::empty() + spec_enc_usize(self.new_positions@.len() as usize)
                =~= spec_enc_usize(self.new_positions@.len() as usize));
        }
        out
    }
}

/// Round trip of a layout-change payload: reading the written bytes back, in
/// any surrounding buffer, gives the written operation.
pub proof fn lemma_change_layout_roundtrip(v: usize, rest: Seq<u8>)
    ensures
        spec_dec_usize(spec_enc_usize(v) + rest, 0) == Some((v, 8int)),
{
    let s = spec_enc_usize(v) + rest;
    assert(s.subrange(0, 8) =~= spec_enc_usize(v));
    lemma_dec_enc_usize(v, s, 0);
}

/// Round trip of a qubit-move payload: reading the written bytes back, in any
/// surrounding buffer, gives the written moves.
pub proof fn lemma_shift_payload_roundtrip(es: Seq<(usize, usize)>, rest: Seq<u8>)
    requires
        es.len() <= usize::MAX,
    ensures
        ({
            let s = spec_enc_usize(es.len() as usize) + spec_enc_pairs(es) + rest;
            &&& spec_dec_usize(s, 0) == Some((es.len() as usize, 8int))
            &&& spec_dec_pairs(s, 8, es.len() as int) == Some((es, 8 + 16 * es.len() as int))
        }),
{
    let s = spec_enc_usize(es.len() as usize) + spec_enc_pairs(es) + rest;
    lemma_enc_pairs_len(es);
    assert(s.subrange(0, 8) =~= spec_enc_usize(es.len() as usize));
    lemma_dec_enc_usize(es.len() as usize, s, 0);
    assert(s.subrange(8, 8 + 16 * es.len() as int) =~= spec_enc_pairs(es)) by {
        assert forall|i: int|
            0 <= i < 16 * es.len() implies s.subrange(8, 8 + 16 * es.len() as int)[i]
            == spec_enc_pairs(es)[i] by {
            assert(s.subrange(8, 8 + 16 * es.len() as int)[i] == s[8 + i]);
            assert(s[8 + i] == (spec_enc_usize(es.len() as usize) + spec_enc_pairs(es))[8 + i]);
        }
    }
    lemma_dec_enc_pairs(es, s, 8);
}

/// Round trip of a grid-move payload: reading the written bytes back, in any
/// surrounding buffer, gives the written position records.
pub proof fn lemma_positions_payload_roundtrip(es: Seq<(usize, (usize, usize))>, rest: Seq<u8>)
    requires
        es.len() <= usize::MAX,
    ensures
        ({
            let s = spec_enc_usize(es.len() as usize) + spec_enc_positions(es) + rest;
            &&& spec_dec_usize(s, 0) == Some((es.len() as usize, 8int))
            &&& spec_dec_positions(s, 8, es.len() as int) == Some((es, 8 + 24 * es.len() as int))
        }),
{
    let s = spec_enc_usize(es.len() as usize) + spec_enc_positions(es) + rest;
    lemma_enc_positions_len(es);
    assert(s.subrange(0, 8) =~= spec_enc_usize(es.len() as usize));
    lemma_dec_enc_usize(es.len() as usize, s, 0);
    assert(s.subrange(8, 8 + 24 * es.len() as int) =~= spec_enc_positions(es)) by {
        assert forall|i: int|
            0 <= i < 24 * es.len() implies s.subrange(8, 8 + 24 * es.len() as int)[i]
            == spec_enc_positions(es)[i] by {
            assert(s.subrange(8, 8 + 24 * es.len() as int)[i] == s[8 + i]);
            assert(s[8 + i] == (spec_enc_usize(es.len() as usize) + spec_enc_positions(es))[8
                + i]);
        }
    }
    lemma_dec_enc_positions(es, s, 8);
}


/// The encoding of a string of seven-bit characters: the length and then one
/// byte per character, which is its UTF-8 encoding.
pub open spec fn spec_enc_string(cs: Seq<char>) -> Seq<u8> {
    spec_enc_u64(cs.len() as u64) + Seq::new(cs.len(), |i: int| cs[i] as u8)
}

/// A character below the seven-bit bound casts to a byte below it, and its
/// numeric value is below it too.
pub proof fn lemma_ascii_byte(c: char)
    requires
        (c as u32) < 128,
    ensures
        (c as u8) == (c as u32) as u8,
        (c as u8) < 128,
        '\0' <= c <= '\u{7f}',
{
    let v = c as u32;
    assert((v as u8) < 128 && v as u8 == v) by (bit_vector)
        requires
            v < 128,
    ;
}

impl PragmaSwitchDeviceLayout {
    /// Writes the operation in its byte encoding when every character of the
    /// layout name is a seven-bit character; other names have no encoding in
    /// this format.
    pub fn to_bytes(&self) -> (r: Option<Vec<u8>>)
        ensures
            r is Some <==> (forall|i: int|
                0 <= i < self.new_layout@.len() ==> ((#[trigger] self.new_layout@[i]) as u32)
                    < 128),
            r matches Some(v) ==> v@ == spec_enc_string(self.new_layout@),
    {
        let name = self.new_layout.as_str();
        let len = vstd::string::StrSliceExecFns::unicode_len(name);
        let mut i: usize = 0;
        while i < len
            invariant
                len == name@.len(),
                name@ == self.new_layout@,
                i <= len,
                forall|j: int| 0 <= j < i ==> ((#[trigger] name@[j]) as u32) < 128,
            decreases len - i,
        {
            let c = vstd::string::StrSliceExecFns::get_char(name, i);
            if c as u32 >= 128 {
                proof {
                    assert((name@[i as int] as u32) >= 128);
                }
                return None;
            }
            i += 1;
        }
        let mut out: Vec<u8> = Vec::new();
        enc_u64(len as u64, &mut out);
        proof {
            assert(Seq::<u8>::empty() + spec_enc_u64(len as u64) =~= spec_enc_u64(len as u64));
        }
        let mut i: usize = 0;
        while i < len
            invariant
                len == name@.len(),
                name@ == self.new_layout@,
                i <= len,
                out@ == spec_enc_u64(len as u64) + Seq::new(
                    i as nat,
                    |k: int| name@[k] as u8,
                ),
            decreases len - i,
        {
            let c = vstd::string::StrSliceExecFns::get_char(name, i);
            out.push(c as u8);
            proof {
                assert(out@ =~= spec_enc_u64(len as u64) + Seq::new(
                    (i + 1) as nat,
                    |k: int| name@[k] as u8,
                ));
            }
            i += 1;
        }
        proof {
            assert(out@ =~= spec_enc_string(self.new_layout@));
        }
        Some(out)
    }
}

/// Round trip of a layout-switch payload: reading the written bytes back, in
/// any surrounding buffer, gives the written layout name.
pub proof fn lemma_switch_payload_roundtrip(cs: Seq<char>, rest: Seq<u8>)
    requires
        cs.len() <= usize::MAX,
        forall|i: int| 0 <= i < cs.len() ==> ((#[trigger] cs[i]) as u32) < 128,
    ensures
        spec_dec_string(spec_enc_string(cs) + rest, 0) == Some((cs, 8 + cs.len() as int)),
{
    let s = spec_enc_string(cs) + rest;
    assert(s.subrange(0, 8) =~= spec_enc_u64(cs.len() as u64));
    lemma_dec_enc_u64(cs.len() as u64, s, 0);
    assert(spec_dec_usize(s, 0) == Some((cs.len() as usize, 8int)));
    assert(vstd::utf8::is_ascii_chars(cs)) by {
        assert forall|i: int| 0 <= i < cs.len() implies '\0' <= #[trigger] cs[i] <= '\u{7f}' by {
            lemma_ascii_byte(cs[i]);
        }
    }
    vstd::utf8::is_ascii_chars_encode_utf8(cs);
    let sub = s.subrange(8, 8 + cs.len() as int);
    assert(sub =~= vstd::utf8::encode_utf8(cs)) by {
        assert forall|k: int|
            0 <= k < cs.len() implies sub[k] == vstd::utf8::encode_utf8(cs)[k] by {
            assert(sub[k] == s[8 + k]);
            assert(s[8 + k] == spec_enc_string(cs)[8 + k]);
            assert(spec_enc_string(cs)[8 + k] == cs[k] as u8);
        }
    }
    vstd::utf8::encode_utf8_valid_utf8(cs);
    vstd::utf8::encode_utf8_decode_utf8(cs);
    assert(8 + cs.len() <= s.len());
}

} // verus!
