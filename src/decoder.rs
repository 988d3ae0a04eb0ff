//! Decoding: errors, bound checks, the decode context, field-level
//! reading and the decoder.
use crate::encoder::{spec_field, spec_length_prefix, spec_wired_id};
use crate::prefab_loader::{DefaultPrefabLoader, PrefabLoader};
use crate::serialization::{decoded, Codec, DeSerialization, Serialization};
use crate::unsigned::{
    decode_varint, lemma_varint_round_trip, spec_decode_varint, spec_varint,
    varint_end_from,
};
use crate::wire_type::{
    deformmat_wired_id, fixed_width, lemma_wire_type_code_round_trip, spec_wired_id_byte,
    wire_type_code, wire_type_of_code, WireType,
};
use vstd::prelude::*;

verus! {

/// What can go wrong while decoding.
#[derive(Clone, Copy, Debug, PartialEq, Eq, Structural)]
pub enum DecodeError {
    DecodeOutOfBounds,
    InvalidType,
    PrefabNotExist,
    PrefabToAnotherPrefab,
    AddOverflow,
    VersionNotCompatible,
}

} // verus!

verus! {

/// Knows where the readable bytes end.
pub struct BoundsChecker {
    /// One past the last readable position.
    pub bound: usize,
}

impl BoundsChecker {
    /// One past the last readable position.
    pub fn get_bound(&self) -> (r: usize)
        ensures
            r == self.bound,
    {
        self.bound
    }

    /// `Ok` when the byte at `pos` can be read.
    pub fn check_bounds(&self, pos: usize) -> (r: Result<(), DecodeError>)
        ensures
            r is Ok <==> pos < self.bound,
            r is Err ==> r == Err::<(), DecodeError>(DecodeError::DecodeOutOfBounds),
    {
        if crate::branch::unlikely(pos >= self.bound) {
            Err(DecodeError::DecodeOutOfBounds)
        } else {
            Ok(())
        }
    }
}

/// What one decode call reads with: the bound of its bytes and the prefab loader.
pub struct DecodeContext<'a, L> {
    pub bounds_checker: BoundsChecker,
    pub prefab_loader: &'a L,
}

impl<'a, L> DecodeContext<'a, L> {
    pub open spec fn bound(&self) -> usize {
        self.bounds_checker.bound
    }
}

} // verus!

verus! {

/// How a wired id is read from the front of `s`: the field id, the wire
/// type and the number of bytes read.
pub open spec fn spec_decode_wired_id(s: Seq<u8>) -> Result<(usize, WireType, nat), DecodeError> {
    if s.len() == 0 {
        Err(DecodeError::DecodeOutOfBounds)
    } else {
        let b = s[0];
        let wire_type = wire_type_of_code(b / 32)->Ok_0;
        if b % 32 < 31 {
            Ok(((b % 32) as usize, wire_type, 1))
        } else {
            match spec_decode_varint(s.drop_first(), (usize::MAX - 30) as nat) {
                Ok((rest, n)) => Ok(((rest + 30) as usize, wire_type, n + 1)),
                Err(e) => Err(e),
            }
        }
    }
}

/// Reading the wired id of field `id`, with anything after it, gives back
/// `id` and the wire type.
pub proof fn lemma_wired_id_round_trip(id: usize, wire_type: WireType, rest: Seq<u8>)
    ensures
        spec_decode_wired_id(spec_wired_id(id as nat, wire_type) + rest) == Ok::<
            (usize, WireType, nat),
            DecodeError,
        >((id, wire_type, spec_wired_id(id as nat, wire_type).len())),
{
    let s = spec_wired_id(id as nat, wire_type) + rest;
    lemma_wire_type_code_round_trip(wire_type);
    let c = wire_type_code(wire_type);
    if id < 31 {
        assert(s[0] == spec_wired_id_byte(id as nat, wire_type));
        assert((c * 32 + id) as u8 / 32 == c && (c * 32 + id) as u8 % 32 == id);
    } else {
        assert(s[0] == spec_wired_id_byte(31, wire_type));
        assert((c * 32 + 31) as u8 / 32 == c && (c * 32 + 31) as u8 % 32 == 31);
        let v = spec_varint((id - 30) as nat);
        assert(s.drop_first() == v + rest);
        lemma_varint_round_trip((id - 30) as nat, rest);
    }
}

/// Reads a wired id at `buf[*pos..]`: the field id and the wire type.
pub fn decode_wired_id<L>(buf: &[u8], pos: &mut usize, ctx: &DecodeContext<L>) -> (r: Result<
    (usize, WireType),
    DecodeError,
>)
    requires
        *old(pos) <= ctx.bound() <= buf@.len(),
    ensures
        *old(pos) <= *final(pos) <= ctx.bound(),
        spec_decode_wired_id(buf@.subrange(*old(pos) as int, ctx.bound() as int)) == (match r {
            Ok((id, w)) => Ok((id, w, (*final(pos) - *old(pos)) as nat)),
            Err(e) => Err::<(usize, WireType, nat), DecodeError>(e),
        }),
{
    let ghost s = buf@.subrange(*old(pos) as int, ctx.bound() as int);
    ctx.bounds_checker.check_bounds(*pos)?;
    let wired_id = buf[*pos];
    assert(s[0] == wired_id);
    *pos = *pos + 1;
    let (id, wire_type) = deformmat_wired_id(wired_id)?;
    if crate::branch::unlikely(id == 31) {
        assert(buf@.subrange(*pos as int, ctx.bound() as int) == s.drop_first());
        let rest_id = decode_varint(buf, pos, ctx.bounds_checker.bound, (usize::MAX - 30) as u64)?;
        Ok((rest_id as usize + 30, wire_type))
    } else {
        Ok((id as usize, wire_type))
    }
}

/// How the bytes of a field of wire type `wire_type` are passed over at the
/// front of `s`: the number of bytes, or the error.
pub open spec fn spec_skip(s: Seq<u8>, wire_type: WireType) -> Result<nat, DecodeError> {
    match wire_type {
        WireType::LengthDelimited => match spec_decode_varint(s, usize::MAX as nat) {
            Ok((n, k)) => if k + n <= s.len() {
                Ok(k + n)
            } else {
                Err(DecodeError::DecodeOutOfBounds)
            },
            Err(e) => Err(e),
        },
        WireType::Varint => match varint_end_from(s, 0) {
            Some(n) => Ok(n),
            None => Err(DecodeError::DecodeOutOfBounds),
        },
        WireType::Prefab => Err(DecodeError::PrefabToAnotherPrefab),
        _ => if fixed_width(wire_type) <= s.len() {
            Ok(fixed_width(wire_type))
        } else {
            Err(DecodeError::DecodeOutOfBounds)
        },
    }
}

/// `spec_skip` stated of the cursor: what `r` says, with `read` bytes passed over.
pub open spec fn skipped(r: Result<(), DecodeError>, read: int) -> Result<nat, DecodeError> {
    match r {
        Ok(_) => Ok(read as nat),
        Err(e) => Err(e),
    }
}

fn skip_non_prefab<L>(ctx: &DecodeContext<L>, buf: &[u8], pos: &mut usize, wire_type: WireType) -> (r:
    Result<(), DecodeError>)
    requires
        *old(pos) <= ctx.bound() <= buf@.len(),
    ensures
        *old(pos) <= *final(pos) <= ctx.bound(),
        spec_skip(buf@.subrange(*old(pos) as int, ctx.bound() as int), wire_type) == skipped(
            r,
            *final(pos) - *old(pos),
        ),
{
    let ghost s = buf@.subrange(*old(pos) as int, ctx.bound() as int);
    let bound = ctx.bounds_checker.bound;
    match wire_type {
        WireType::LengthDelimited => {
            let size = decode_varint(buf, pos, bound, usize::MAX as u64)?;
            let size = size as usize;
            if size > bound - *pos {
                return Err(DecodeError::DecodeOutOfBounds);
            }
            *pos = *pos + size;
            Ok(())
        },
        WireType::Varint => {
            let mut p: usize = *pos;
            loop
                invariant
                    *old(pos) <= p <= bound <= buf@.len(),
                    *pos == *old(pos),
                    bound == ctx.bound(),
                    wire_type == WireType::Varint,
                    s == buf@.subrange(*old(pos) as int, bound as int),
                    varint_end_from(s, (p - *old(pos)) as nat) == varint_end_from(s, 0),
                decreases bound - p,
            {
                assert(s.len() == bound - *old(pos));
                if p >= bound {
                    assert(varint_end_from(s, (p - *old(pos)) as nat) is None);
                    assert(spec_skip(s, wire_type) == Err::<nat, DecodeError>(
                        DecodeError::DecodeOutOfBounds,
                    ));
                    return Err(DecodeError::DecodeOutOfBounds);
                }
                assert(s[p - *old(pos)] == buf@[p as int]);
                if buf[p] < 128 {
                    assert(varint_end_from(s, (p - *old(pos)) as nat) == Some(
                        (p + 1 - *old(pos)) as nat,
                    ));
                    *pos = p + 1;
                    assert(spec_skip(s, wire_type) == Ok::<nat, DecodeError>(
                        (*pos - *old(pos)) as nat,
                    ));
                    return Ok(());
                }
                p = p + 1;
            }
        },
        WireType::Prefab => Err(DecodeError::PrefabToAnotherPrefab),
        _ => {
            let width: usize = match wire_type {
                WireType::Bits8 => 1,
                WireType::Bits16 => 2,
                WireType::Bits32 => 4,
                WireType::Bits64 => 8,
                _ => 16,
            };
            if width > bound - *pos {
                return Err(DecodeError::DecodeOutOfBounds);
            }
            *pos = *pos + width;
            Ok(())
        },
    }
}

impl<'a, L: PrefabLoader> DecodeContext<'a, L> {
    /// Passes over a field of wire type `wire_type` whose id is not known.
    /// For a prefab field the loader says what the token occupies.
    pub fn skip(&self, buf: &[u8], pos: &mut usize, wire_type: WireType) -> (r: Result<
        (),
        DecodeError,
    >)
        requires
            *old(pos) <= self.bound() <= buf@.len(),
        ensures
            *old(pos) <= *final(pos) <= self.bound(),
            wire_type != WireType::Prefab ==> spec_skip(
                buf@.subrange(*old(pos) as int, self.bound() as int),
                wire_type,
            ) == skipped(r, *final(pos) - *old(pos)),
            wire_type == WireType::Prefab && r is Ok ==> exists|w: WireType|
                w != WireType::Prefab && #[trigger] spec_skip(
                    buf@.subrange(*old(pos) as int, self.bound() as int),
                    w,
                ) == Ok::<nat, DecodeError>((*final(pos) - *old(pos)) as nat),
    {
        match wire_type {
            WireType::Prefab => {
                let effective = self.prefab_loader.skip_wire_type()?;
                let w = effective.to_wire_type();
                skip_non_prefab(self, buf, pos, w)
            },
            _ => skip_non_prefab(self, buf, pos, wire_type),
        }
    }
}

/// How a field value of `S` is read from the front of `s` when it is not
/// a prefab: a length-delimited value is preceded by its length, and is read
/// from exactly that many bytes; the field then ends there.
pub open spec fn spec_decode_field<S: DeSerialization>(s: Seq<u8>) -> Result<
    (S::V, nat),
    DecodeError,
> {
    if S::spec_wire_type() == WireType::LengthDelimited {
        match spec_decode_varint(s, usize::MAX as nat) {
            Ok((n, k)) => if k + n <= s.len() {
                match S::spec_decode(s.subrange(k as int, (k + n) as int)) {
                    Ok((v, _)) => Ok((v, k + n)),
                    Err(e) => Err(e),
                }
            } else {
                Err(DecodeError::DecodeOutOfBounds)
            },
            Err(e) => Err(e),
        }
    } else {
        S::spec_decode(s)
    }
}

/// Decodes a value of `S` from the whole of `payload`, the bytes a prefab
/// loader handed back.
pub fn decode_prefab_payload<S: DeSerialization, L: PrefabLoader>(
    payload: &Vec<u8>,
    loader: &L,
) -> (r: Result<S, DecodeError>)
    ensures
        r is Ok ==> S::spec_decode(payload@) is Ok && S::spec_decode(payload@)->Ok_0.0
            == r->Ok_0.deep_view(),
        r is Err ==> S::spec_decode(payload@) == Err::<(S::V, nat), DecodeError>(r->Err_0),
{
    let bytes = payload.as_slice();
    let mut p: usize = 0;
    let ctx = DecodeContext {
        bounds_checker: BoundsChecker { bound: bytes.len() },
        prefab_loader: loader,
    };
    assert(bytes@.subrange(0, bytes@.len() as int) == payload@);
    S::decode(bytes, &mut p, &ctx)
}

/// Reads the value of a field whose wired id has just been read.
///
/// With `is_prefab` the loader reads the token and hands back the bytes of
/// the value, which must not itself be of the prefab wire type. Otherwise
/// the value is read in place, as `spec_decode_field` says.
pub fn decode_field<S: DeSerialization, L: PrefabLoader>(
    buf: &[u8],
    pos: &mut usize,
    ctx: &DecodeContext<L>,
    is_prefab: bool,
) -> (r: Result<S, DecodeError>)
    requires
        *old(pos) <= ctx.bound() <= buf@.len(),
    ensures
        *old(pos) <= *final(pos) <= ctx.bound(),
        !is_prefab ==> spec_decode_field::<S>(buf@.subrange(*old(pos) as int, ctx.bound() as int))
            == decoded(r, *final(pos) - *old(pos)),
        is_prefab && S::spec_wire_type() == WireType::Prefab ==> r is Err,
        is_prefab && r is Ok ==> exists|b: Seq<u8>|
            #[trigger] S::spec_decode(b) is Ok && S::spec_decode(b)->Ok_0.0 == r->Ok_0.deep_view(),
{
    if is_prefab {
        let payload = ctx.prefab_loader.handle_prefab(buf, pos, ctx)?;
        if S::wire_type() == WireType::Prefab {
            return Err(DecodeError::PrefabToAnotherPrefab);
        }
        decode_prefab_payload::<S, L>(&payload, ctx.prefab_loader)
    } else {
        let ghost s = buf@.subrange(*old(pos) as int, ctx.bound() as int);
        if S::wire_type() == WireType::LengthDelimited {
            let bound = ctx.bounds_checker.bound;
            let size = decode_varint(buf, pos, bound, usize::MAX as u64)?;
            let size = size as usize;
            if size > bound - *pos {
                return Err(DecodeError::DecodeOutOfBounds);
            }
            let end: usize = *pos + size;
            let ghost k = (*pos - *old(pos)) as nat;
            let inner = DecodeContext {
                bounds_checker: BoundsChecker { bound: end },
                prefab_loader: ctx.prefab_loader,
            };
            assert(buf@.subrange(*pos as int, end as int) == s.subrange(k as int, k + size));
            let v = S::decode(buf, pos, &inner)?;
            *pos = end;
            Ok(v)
        } else {
            S::decode(buf, pos, ctx)
        }
    }
}

/// A reader that does not know field `id` passes over it exactly: the wired
/// id reads back, and skipping by its wire type ends where the field ends.
/// (A prefab field is skipped as its loader says.)
pub proof fn lemma_skip_unknown_field<S: Serialization>(id: usize, value: S, rest: Seq<u8>)
    requires
        S::spec_wire_type() != WireType::Prefab,
        value.spec_encode().len() <= usize::MAX,
    ensures
        ({
            let f = spec_field(id as nat, value);
            let w = spec_wired_id(id as nat, S::spec_wire_type()).len();
            &&& spec_decode_wired_id(f + rest) == Ok::<(usize, WireType, nat), DecodeError>(
                (id, S::spec_wire_type(), w),
            )
            &&& spec_skip((f + rest).subrange(w as int, (f + rest).len() as int), S::spec_wire_type())
                == Ok::<nat, DecodeError>((f.len() - w) as nat)
        }),
{
    let wt = S::spec_wire_type();
    let e = value.spec_encode();
    let wid = spec_wired_id(id as nat, wt);
    let pre = spec_length_prefix(wt, e.len());
    let f = spec_field(id as nat, value);
    let w = wid.len();
    assert(f + rest == wid + (pre + e + rest));
    lemma_wired_id_round_trip(id, wt, pre + e + rest);
    let t = (f + rest).subrange(w as int, (f + rest).len() as int);
    assert(t == pre + e + rest);
    value.lemma_encode_len();
    if wt == WireType::LengthDelimited {
        assert(t == spec_varint(e.len()) + (e + rest));
        lemma_varint_round_trip(e.len(), e + rest);
    } else if wt == WireType::Varint {
        let x = choose|x: nat| e == #[trigger] spec_varint(x);
        assert(t == spec_varint(x) + rest);
        lemma_varint_round_trip(x, rest);
    } else {
        assert(pre.len() == 0);
    }
}

/// A reader that knows field `id` reads its value back, and the field's
/// bytes exactly.
pub proof fn lemma_decode_field_round_trip<S: Codec>(id: usize, value: S, rest: Seq<u8>)
    requires
        value.spec_encode().len() <= usize::MAX,
    ensures
        ({
            let f = spec_field(id as nat, value);
            let w = spec_wired_id(id as nat, S::spec_wire_type()).len();
            spec_decode_field::<S>((f + rest).subrange(w as int, (f + rest).len() as int)) == Ok::<
                (S::V, nat),
                DecodeError,
            >((value.deep_view(), (f.len() - w) as nat))
        }),
{
    let wt = S::spec_wire_type();
    let e = value.spec_encode();
    let wid = spec_wired_id(id as nat, wt);
    let pre = spec_length_prefix(wt, e.len());
    let f = spec_field(id as nat, value);
    let w = wid.len();
    assert(f + rest == wid + (pre + e + rest));
    let t = (f + rest).subrange(w as int, (f + rest).len() as int);
    assert(t == pre + e + rest);
    if wt == WireType::LengthDelimited {
        assert(t == spec_varint(e.len()) + (e + rest));
        lemma_varint_round_trip(e.len(), e + rest);
        let k = spec_varint(e.len()).len();
        assert(t.subrange(k as int, (k + e.len()) as int) == e);
        crate::serialization::lemma_encode_decode(value);
    } else {
        assert(t == e + rest);
        S::lemma_round_trip(&value, rest);
    }
}

/// How an aggregate that knows only field `known`, of type `S`, reads the
/// field stream `s` to its end with a decoder that resolves no prefab: each
/// wired id is read; the known field is read with `decode_field`, any other
/// is skipped; the last value read for `known` (or `found`, if none) results.
pub open spec fn spec_read_known<S: DeSerialization>(
    s: Seq<u8>,
    known: usize,
    found: Option<S::V>,
) -> Result<Option<S::V>, DecodeError>
    decreases s.len(),
{
    if s.len() == 0 {
        Ok(found)
    } else {
        match spec_decode_wired_id(s) {
            Err(e) => Err(e),
            Ok((id, wire_type, w)) => {
                let t = s.subrange(w as int, s.len() as int);
                let step: Result<(Option<S::V>, nat), DecodeError> = if wire_type
                    == WireType::Prefab {
                    Err(DecodeError::PrefabNotExist)
                } else if id == known {
                    match spec_decode_field::<S>(t) {
                        Ok((v, n)) => Ok((Some(v), n)),
                        Err(e) => Err(e),
                    }
                } else {
                    match spec_skip(t, wire_type) {
                        Ok(n) => Ok((found, n)),
                        Err(e) => Err(e),
                    }
                };
                match step {
                    Err(e) => Err(e),
                    Ok((f, n)) => if 1 <= w && w + n <= s.len() {
                        spec_read_known::<S>(s.subrange((w + n) as int, s.len() as int), known, f)
                    } else {
                        Err(DecodeError::DecodeOutOfBounds)
                    },
                }
            },
        }
    }
}

/// Forward compatibility: a producer writes field `a` holding `x` and field
/// `b` holding `y`, in either order; a consumer that knows only field `a`
/// reads `x` back and passes over `y` without error.
pub proof fn lemma_forward_compatible<S: Codec, T: Serialization>(
    a: usize,
    x: S,
    b: usize,
    y: T,
)
    requires
        a != b,
        S::spec_wire_type() != WireType::Prefab,
        T::spec_wire_type() != WireType::Prefab,
        x.spec_encode().len() <= usize::MAX,
        y.spec_encode().len() <= usize::MAX,
    ensures
        spec_read_known::<S>(spec_field(a as nat, x) + spec_field(b as nat, y), a, None) == Ok::<
            Option<S::V>,
            DecodeError,
        >(Some(x.deep_view())),
        spec_read_known::<S>(spec_field(b as nat, y) + spec_field(a as nat, x), a, None) == Ok::<
            Option<S::V>,
            DecodeError,
        >(Some(x.deep_view())),
{
    let fa = spec_field(a as nat, x);
    let fb = spec_field(b as nat, y);
    lemma_read_known_step_known::<S>(a, x, fb, None);
    lemma_read_known_step_unknown::<S, T>(b, y, Seq::empty(), a, Some(x.deep_view()));
    assert(fb + Seq::<u8>::empty() == fb);
    lemma_read_known_step_unknown::<S, T>(b, y, fa, a, None);
    lemma_read_known_step_known::<S>(a, x, Seq::empty(), None::<S::V>);
    assert(fa + Seq::<u8>::empty() == fa);
    assert(spec_read_known::<S>(Seq::empty(), a, Some(x.deep_view())) == Ok::<
        Option<S::V>,
        DecodeError,
    >(Some(x.deep_view())));
}

/// One step of `spec_read_known` over the known field.
proof fn lemma_read_known_step_known<S: Codec>(
    a: usize,
    x: S,
    rest: Seq<u8>,
    found: Option<S::V>,
)
    requires
        S::spec_wire_type() != WireType::Prefab,
        x.spec_encode().len() <= usize::MAX,
    ensures
        spec_read_known::<S>(spec_field(a as nat, x) + rest, a, found) == spec_read_known::<S>(
            rest,
            a,
            Some(x.deep_view()),
        ),
{
    let f = spec_field(a as nat, x);
    let w = spec_wired_id(a as nat, S::spec_wire_type()).len();
    let s = f + rest;
    lemma_skip_unknown_field(a, x, rest);
    lemma_decode_field_round_trip(a, x, rest);
    x.lemma_encode_len();
    assert(s.len() > 0);
    assert(s.subrange(f.len() as int, s.len() as int) == rest);
}

/// One step of `spec_read_known` over a field it does not know.
proof fn lemma_read_known_step_unknown<S: DeSerialization, T: Serialization>(
    b: usize,
    y: T,
    rest: Seq<u8>,
    known: usize,
    found: Option<S::V>,
)
    requires
        b != known,
        T::spec_wire_type() != WireType::Prefab,
        y.spec_encode().len() <= usize::MAX,
    ensures
        spec_read_known::<S>(spec_field(b as nat, y) + rest, known, found) == spec_read_known::<S>(
            rest,
            known,
            found,
        ),
{
    let f = spec_field(b as nat, y);
    let s = f + rest;
    lemma_skip_unknown_field(b, y, rest);
    y.lemma_encode_len();
    assert(s.len() > 0);
    assert(s.subrange(f.len() as int, s.len() as int) == rest);
}

/// Owns encoded bytes and decodes values from their start.
pub struct Decoder<'a, L> {
    buf: Vec<u8>,
    ctx: DecodeContext<'a, L>,
}

impl<'a, L> Decoder<'a, L> {
    /// The bytes the decoder reads.
    pub closed spec fn spec_bytes(&self) -> Seq<u8> {
        self.buf@
    }

    pub closed spec fn wf(&self) -> bool {
        self.ctx.bound() == self.buf@.len()
    }

    /// The loader prefab fields go to.
    pub closed spec fn spec_loader(&self) -> &'a L {
        self.ctx.prefab_loader
    }
}

impl<'a, L: PrefabLoader> Decoder<'a, L> {
    /// A decoder over `v` whose prefab fields go to `prefab_loader`.
    pub fn from_data_with_preloader(v: Vec<u8>, prefab_loader: &'a L) -> (r: Self)
        ensures
            r.wf(),
            r.spec_bytes() == v@,
            r.spec_loader() == prefab_loader,
    {
        let bound = v.len();
        Decoder { buf: v, ctx: DecodeContext { bounds_checker: BoundsChecker { bound }, prefab_loader } }
    }

    /// Decodes a value of `S` from the start of the bytes.
    pub fn decode<S: DeSerialization>(&self) -> (r: Result<S, DecodeError>)
        requires
            self.wf(),
        ensures
            (match S::spec_decode(self.spec_bytes()) {
                Ok((v, _)) => r is Ok && r->Ok_0.deep_view() == v,
                Err(e) => r == Err::<S, DecodeError>(e),
            }),
    {
        let mut pos: usize = 0;
        let bytes = self.buf.as_slice();
        assert(bytes@.subrange(0, self.ctx.bound() as int) == self.buf@);
        S::decode(bytes, &mut pos, &self.ctx)
    }

    /// The context values are decoded with; meant for field-level decoding.
    pub fn get_context(&self) -> (r: &DecodeContext<'a, L>)
        ensures
            self.wf() ==> r.bound() == self.spec_bytes().len(),
            r.prefab_loader == self.spec_loader(),
    {
        &self.ctx
    }

    /// The bytes the decoder reads.
    pub fn get_buffer(&self) -> (r: &[u8])
        ensures
            r@ == self.spec_bytes(),
    {
        self.buf.as_slice()
    }
}

impl Decoder<'static, DefaultPrefabLoader> {
    /// A decoder over `v` that resolves no prefab.
    pub fn from_data(v: Vec<u8>) -> (r: Self)
        ensures
            r.wf(),
            r.spec_bytes() == v@,
    {
        Decoder::from_data_with_preloader(v, &DefaultPrefabLoader {})
    }
}

} // verus!
