use vstd::prelude::*;
use crate::error::PortableAudioLibraryError;

verus! {

/// Size of the length header that opens a container.
pub const HEADER_SIZE: usize = 8;

/// The value of `s` read as a big-endian unsigned integer.
pub open spec fn be_value(s: Seq<u8>) -> nat
    decreases s.len(),
{
    if s.len() == 0 {
        0
    } else {
        be_value(s.drop_last()) * 256 + s.last() as nat
    }
}

/// 256 to the power `n`.
pub open spec fn pow256(n: nat) -> nat
    decreases n,
{
    if n == 0 {
        1
    } else {
        256 * pow256((n - 1) as nat)
    }
}

/// The bytes of every payload, one after another.
pub open spec fn concat_all(payloads: Seq<Seq<u8>>) -> Seq<u8>
    decreases payloads.len(),
{
    if payloads.len() == 0 {
        Seq::empty()
    } else {
        concat_all(payloads.drop_last()) + payloads.last()
    }
}

/// The contents of each buffer.
pub open spec fn views(buffers: Seq<Vec<u8>>) -> Seq<Seq<u8>> {
    buffers.map_values(|b: Vec<u8>| b@)
}

/// `c` is the container of the metadata section `metadata` followed by
/// `payloads`: an eight-byte big-endian length of the metadata, the metadata,
/// then the payloads in order.
pub open spec fn is_container_of(c: Seq<u8>, metadata: Seq<u8>, payloads: Seq<Seq<u8>>) -> bool {
    &&& c.len() >= HEADER_SIZE
    &&& be_value(c.subrange(0, HEADER_SIZE as int)) == metadata.len()
    &&& c.subrange(HEADER_SIZE as int, c.len() as int) == metadata + concat_all(payloads)
}

pub proof fn lemma_be_value_bound(s: Seq<u8>)
    ensures
        be_value(s) < pow256(s.len()),
    decreases s.len(),
{
    if s.len() > 0 {
        lemma_be_value_bound(s.drop_last());
        let a = be_value(s.drop_last());
        let p = pow256((s.len() - 1) as nat);
        let x = s.last() as nat;
        assert(a * 256 + x < 256 * p) by (nonlinear_arith)
            requires
                a < p,
                x < 256,
        ;
    }
}

pub proof fn lemma_be_value_prepend(x: u8, s: Seq<u8>)
    ensures
        be_value(seq![x] + s) == x as nat * pow256(s.len()) + be_value(s),
    decreases s.len(),
{
    let t = seq![x] + s;
    if s.len() == 0 {
        assert(t.drop_last() =~= Seq::<u8>::empty());
        assert(t.last() == x);
        assert(be_value(t.drop_last()) == 0);
        assert(be_value(t) == x as nat);
        assert(pow256(0) == 1);
    } else {
        assert(t.drop_last() =~= seq![x] + s.drop_last());
        assert(t.last() == s.last());
        assert(pow256(s.len()) == 256 * pow256((s.len() - 1) as nat));
        lemma_be_value_prepend(x, s.drop_last());
        let p = pow256((s.len() - 1) as nat);
        let b = be_value(s.drop_last());
        assert(be_value(t) == be_value(seq![x] + s.drop_last()) * 256 + s.last() as nat);
        assert(be_value(s) == b * 256 + s.last() as nat);
        assert((x as nat * p + b) * 256 + s.last() as nat == x as nat * (256 * p) + (b * 256
            + s.last() as nat)) by (nonlinear_arith);
    }
}

/// Two byte strings of one length with the same big-endian value are equal.
pub proof fn lemma_be_value_injective(s: Seq<u8>, t: Seq<u8>)
    requires
        s.len() == t.len(),
        be_value(s) == be_value(t),
    ensures
        s == t,
    decreases s.len(),
{
    if s.len() > 0 {
        let a = be_value(s.drop_last());
        let b = be_value(t.drop_last());
        let x = s.last() as nat;
        let y = t.last() as nat;
        assert(a == b && x == y) by (nonlinear_arith)
            requires
                a * 256 + x == b * 256 + y,
                x < 256,
                y < 256,
        ;
        lemma_be_value_injective(s.drop_last(), t.drop_last());
        assert(s =~= s.drop_last().push(s.last()));
        assert(t =~= t.drop_last().push(t.last()));
    }
}

/// Encodes `v` as eight big-endian bytes.
pub fn encode_length(v: u64) -> (r: Vec<u8>)
    ensures
        r@.len() == HEADER_SIZE,
        be_value(r@) == v,
{
    let mut out: Vec<u8> = Vec::new();
    let mut rest: u64 = v;
    let mut k: usize = 0;
    assert(pow256(0) == 1);
    while k < HEADER_SIZE
        invariant
            k <= HEADER_SIZE,
            out@.len() == k,
            v == rest as nat * pow256(k as nat) + be_value(out@),
        decreases HEADER_SIZE - k,
    {
        let x: u8 = (rest % 256) as u8;
        proof {
            lemma_be_value_prepend(x, out@);
            let p = pow256(k as nat);
            assert(pow256((k + 1) as nat) == 256 * p);
            let q = rest as nat / 256;
            assert(rest as nat == q * 256 + x as nat);
            assert(rest as nat * p == q * (256 * p) + x as nat * p) by (nonlinear_arith)
                requires
                    rest as nat == q * 256 + x as nat,
            ;
        }
        let ghost before = out@;
        out.insert(0, x);
        assert(out@ =~= seq![x] + before);
        rest = rest / 256;
        k = k + 1;
    }
    proof {
        lemma_pow256_values();
        assert(rest == 0) by (nonlinear_arith)
            requires
                v == rest as nat * 0x1_0000_0000_0000_0000nat + be_value(out@),
                v < 0x1_0000_0000_0000_0000nat,
        ;
    }
    out
}

/// Reads the big-endian value of the first eight bytes of `bytes`.
pub fn decode_length(bytes: &[u8]) -> (r: u64)
    requires
        bytes@.len() >= HEADER_SIZE,
    ensures
        r == be_value(bytes@.subrange(0, HEADER_SIZE as int)),
{
    let mut acc: u64 = 0;
    let mut k: usize = 0;
    while k < HEADER_SIZE
        invariant
            k <= HEADER_SIZE,
            bytes@.len() >= HEADER_SIZE,
            acc == be_value(bytes@.subrange(0, k as int)),
        decreases HEADER_SIZE - k,
    {
        proof {
            lemma_be_value_bound(bytes@.subrange(0, k as int));
            lemma_pow256_values();
            if k < 7 {
                lemma_pow256_mono(k as nat, 7);
            }
            assert(bytes@.subrange(0, k + 1).drop_last() =~= bytes@.subrange(0, k as int));
        }
        acc = acc * 256 + bytes[k] as u64;
        k = k + 1;
    }
    acc
}

pub proof fn lemma_pow256_values()
    ensures
        pow256(7) == 0x1_0000_0000_0000_00nat,
        pow256(8) == 0x1_0000_0000_0000_0000nat,
{
    reveal_with_fuel(pow256, 9);
}

pub proof fn lemma_pow256_mono(a: nat, b: nat)
    requires
        a <= b,
    ensures
        pow256(a) <= pow256(b),
    decreases b - a,
{
    if a < b {
        lemma_pow256_mono(a, (b - 1) as nat);
    }
}

/// The number of bytes that the first `i` payloads take.
pub open spec fn prefix_len(payloads: Seq<Seq<u8>>, i: int) -> int {
    concat_all(payloads.take(i)).len() as int
}

pub proof fn lemma_concat_take_step(payloads: Seq<Seq<u8>>, i: int)
    requires
        0 <= i < payloads.len(),
    ensures
        concat_all(payloads.take(i + 1)) == concat_all(payloads.take(i)) + payloads[i],
{
    assert(payloads.take(i + 1).drop_last() =~= payloads.take(i));
}

pub proof fn lemma_concat_take_len(payloads: Seq<Seq<u8>>, i: int)
    requires
        0 <= i <= payloads.len(),
    ensures
        prefix_len(payloads, i) <= concat_all(payloads).len(),
    decreases payloads.len() - i,
{
    if i < payloads.len() {
        lemma_concat_take_step(payloads, i);
        lemma_concat_take_len(payloads, i + 1);
    } else {
        assert(payloads.take(i) =~= payloads);
    }
}

/// Within the concatenation, payload `i` starts after the bytes of the
/// payloads before it and spans its own length.
pub proof fn lemma_payload_location(payloads: Seq<Seq<u8>>, i: int)
    requires
        0 <= i < payloads.len(),
    ensures
        prefix_len(payloads, i) + payloads[i].len() <= concat_all(payloads).len(),
        concat_all(payloads).subrange(
            prefix_len(payloads, i),
            prefix_len(payloads, i) + payloads[i].len(),
        ) == payloads[i],
    decreases payloads.len(),
{
    let init = payloads.drop_last();
    if i == payloads.len() - 1 {
        assert(payloads.take(i) =~= init);
        assert(concat_all(payloads).subrange(prefix_len(payloads, i), concat_all(payloads).len() as int)
            =~= payloads[i]);
    } else {
        lemma_payload_location(init, i);
        assert(init.take(i) =~= payloads.take(i));
        assert(concat_all(payloads).subrange(
            prefix_len(payloads, i),
            prefix_len(payloads, i) + payloads[i].len(),
        ) =~= concat_all(init).subrange(
            prefix_len(payloads, i),
            prefix_len(payloads, i) + payloads[i].len(),
        ));
    }
}

/// Appends the bytes of `src` to `out`.
fn append_bytes(out: &mut Vec<u8>, src: &[u8])
    ensures
        final(out)@ == old(out)@ + src@,
{
    let mut k: usize = 0;
    while k < src.len()
        invariant
            k <= src@.len(),
            out@ == old(out)@ + src@.subrange(0, k as int),
        decreases src@.len() - k,
    {
        out.push(src[k]);
        k = k + 1;
        assert(out@ =~= old(out)@ + src@.subrange(0, k as int));
    }
    assert(src@.subrange(0, k as int) =~= src@);
}

/// Lays out a container: the eight-byte big-endian length of `metadata`, the
/// metadata, then every payload in order. Fails only where the container
/// would be larger than memory can address.
pub fn frame_container(metadata: &[u8], payloads: &Vec<Vec<u8>>) -> (r: Result<Vec<u8>, PortableAudioLibraryError>)
    ensures
        match r {
            Ok(c) => is_container_of(c@, metadata@, views(payloads@)),
            Err(e) => e == PortableAudioLibraryError::ContainerTooLarge && HEADER_SIZE
                + metadata@.len() + concat_all(views(payloads@)).len() > usize::MAX,
        },
{
    let ghost ps = views(payloads@);
    if metadata.len() > usize::MAX - HEADER_SIZE {
        proof {
            lemma_concat_take_len(ps, 0);
        }
        return Err(PortableAudioLibraryError::ContainerTooLarge);
    }
    let mut total: usize = HEADER_SIZE + metadata.len();
    let mut i: usize = 0;
    assert(ps.take(0) =~= Seq::<Seq<u8>>::empty());
    while i < payloads.len()
        invariant
            i <= payloads@.len(),
            ps == views(payloads@),
            total == HEADER_SIZE + metadata@.len() + prefix_len(ps, i as int),
        decreases payloads@.len() - i,
    {
        proof {
            lemma_concat_take_step(ps, i as int);
        }
        if payloads[i].len() > usize::MAX - total {
            proof {
                lemma_concat_take_len(ps, i + 1);
            }
            return Err(PortableAudioLibraryError::ContainerTooLarge);
        }
        total = total + payloads[i].len();
        i = i + 1;
    }
    let mut out = encode_length(metadata.len() as u64);
    let ghost header = out@;
    append_bytes(&mut out, metadata);
    assert(out@.subrange(0, HEADER_SIZE as int) =~= header);
    assert(ps.take(0) =~= Seq::<Seq<u8>>::empty());
    assert(out@.subrange(HEADER_SIZE as int, out@.len() as int) =~= metadata@ + concat_all(
        ps.take(0),
    ));
    let mut j: usize = 0;
    while j < payloads.len()
        invariant
            j <= payloads@.len(),
            ps == views(payloads@),
            out@.len() >= HEADER_SIZE,
            be_value(out@.subrange(0, HEADER_SIZE as int)) == metadata@.len(),
            out@.subrange(HEADER_SIZE as int, out@.len() as int) == metadata@ + concat_all(ps.take(j as int)),
        decreases payloads@.len() - j,
    {
        proof {
            lemma_concat_take_step(ps, j as int);
        }
        let ghost before = out@;
        append_bytes(&mut out, payloads[j].as_slice());
        assert(out@.subrange(0, HEADER_SIZE as int) =~= before.subrange(0, HEADER_SIZE as int));
        assert(out@.subrange(HEADER_SIZE as int, out@.len() as int) =~= before.subrange(
            HEADER_SIZE as int,
            before.len() as int,
        ) + payloads@[j as int]@);
        j = j + 1;
    }
    assert(ps.take(j as int) =~= ps);
    Ok(out)
}

/// Reads a container's header: the length of its metadata section, which
/// starts right after the header. Fails where the container is shorter than
/// the header, or than the metadata length that the header announces.
pub fn read_metadata_length(container: &[u8]) -> (r: Result<usize, PortableAudioLibraryError>)
    ensures
        match r {
            Ok(l) => container@.len() >= HEADER_SIZE && l == be_value(container@.subrange(0, HEADER_SIZE as int))
                && HEADER_SIZE + l <= container@.len(),
            Err(e) => if container@.len() < HEADER_SIZE {
                e == PortableAudioLibraryError::HeaderTruncated
            } else {
                e == PortableAudioLibraryError::MetadataTruncated && HEADER_SIZE + be_value(
                    container@.subrange(0, HEADER_SIZE as int),
                ) > container@.len()
            },
        },
{
    if container.len() < HEADER_SIZE {
        return Err(PortableAudioLibraryError::HeaderTruncated);
    }
    let l = decode_length(container);
    if l > (container.len() - HEADER_SIZE) as u64 {
        return Err(PortableAudioLibraryError::MetadataTruncated);
    }
    Ok(l as usize)
}

/// The layout leaves no freedom: the metadata section and the payloads
/// determine every byte of their container.
pub proof fn lemma_container_unique(c1: Seq<u8>, c2: Seq<u8>, metadata: Seq<u8>, payloads: Seq<Seq<u8>>)
    requires
        is_container_of(c1, metadata, payloads),
        is_container_of(c2, metadata, payloads),
    ensures
        c1 == c2,
{
    let h = HEADER_SIZE as int;
    lemma_be_value_injective(c1.subrange(0, h), c2.subrange(0, h));
    assert(c1 =~= c1.subrange(0, h) + c1.subrange(h, c1.len() as int));
    assert(c2 =~= c2.subrange(0, h) + c2.subrange(h, c2.len() as int));
}

} // verus!
