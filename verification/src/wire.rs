//! The coordinator–worker wire protocol: length-prefixed, status-tagged
//! framing.  All multi-byte integers are big-endian; strings travel as
//! UTF-8 bytes with no terminator.  Every frame a peer sends is built
//! here, and every frame received is parsed here; the lockstep status
//! discipline is enforced by [`check_status`].

use vstd::prelude::*;
use crate::WorkerStatus;
use crate::envmap::EnvMap;
use crate::strutil::utf8_bytes_of;

verus! {

/// The big-endian bytes of `n` as a 16-bit integer (low bits of `n`).
pub open spec fn be16n(n: int) -> Seq<u8> {
    seq![(((n / 0x100) % 0x100) as u8), ((n % 0x100) as u8)]
}

/// The big-endian bytes of `n` as a 32-bit integer (low bits of `n`).
pub open spec fn be32n(n: int) -> Seq<u8> {
    seq![
        (((n / 0x1000000) % 0x100) as u8),
        (((n / 0x10000) % 0x100) as u8),
        (((n / 0x100) % 0x100) as u8),
        ((n % 0x100) as u8),
    ]
}

/// The big-endian bytes of `n` as a 64-bit integer (low bits of `n`).
pub open spec fn be64n(n: int) -> Seq<u8> {
    seq![
        (((n / 0x100000000000000) % 0x100) as u8),
        (((n / 0x1000000000000) % 0x100) as u8),
        (((n / 0x10000000000) % 0x100) as u8),
        (((n / 0x100000000) % 0x100) as u8),
        (((n / 0x1000000) % 0x100) as u8),
        (((n / 0x10000) % 0x100) as u8),
        (((n / 0x100) % 0x100) as u8),
        ((n % 0x100) as u8),
    ]
}

pub fn push_be16(out: &mut Vec<u8>, n: u16)
    ensures
        final(out)@ == old(out)@ + be16n(n as int),
{
    out.push((n / 0x100) as u8);
    out.push((n % 0x100) as u8);
    proof {
        assert(old(out)@ + be16n(n as int) =~= old(out)@.push((((n as int) / 0x100) % 0x100) as u8)
            .push(((n as int) % 0x100) as u8));
        assert((((n as int) / 0x100) % 0x100) == (n as int) / 0x100);
    }
}

pub fn push_be32(out: &mut Vec<u8>, n: u32)
    ensures
        final(out)@ == old(out)@ + be32n(n as int),
{
    out.push((n / 0x1000000) as u8);
    out.push(((n / 0x10000) % 0x100) as u8);
    out.push(((n / 0x100) % 0x100) as u8);
    out.push((n % 0x100) as u8);
    proof {
        assert((((n as int) / 0x1000000) % 0x100) == (n as int) / 0x1000000);
        assert(old(out)@ + be32n(n as int) =~= old(out)@.push(
            (((n as int) / 0x1000000) % 0x100) as u8,
        ).push((((n as int) / 0x10000) % 0x100) as u8).push(
            (((n as int) / 0x100) % 0x100) as u8,
        ).push(((n as int) % 0x100) as u8));
    }
}

pub fn push_be64(out: &mut Vec<u8>, n: u64)
    ensures
        final(out)@ == old(out)@ + be64n(n as int),
{
    out.push((n / 0x100000000000000) as u8);
    out.push(((n / 0x1000000000000) % 0x100) as u8);
    out.push(((n / 0x10000000000) % 0x100) as u8);
    out.push(((n / 0x100000000) % 0x100) as u8);
    out.push(((n / 0x1000000) % 0x100) as u8);
    out.push(((n / 0x10000) % 0x100) as u8);
    out.push(((n / 0x100) % 0x100) as u8);
    out.push((n % 0x100) as u8);
    proof {
        assert((((n as int) / 0x100000000000000) % 0x100) == (n as int) / 0x100000000000000);
        assert(old(out)@ + be64n(n as int) =~= old(out)@.push(
            (((n as int) / 0x100000000000000) % 0x100) as u8,
        ).push((((n as int) / 0x1000000000000) % 0x100) as u8).push(
            (((n as int) / 0x10000000000) % 0x100) as u8,
        ).push((((n as int) / 0x100000000) % 0x100) as u8).push(
            (((n as int) / 0x1000000) % 0x100) as u8,
        ).push((((n as int) / 0x10000) % 0x100) as u8).push(
            (((n as int) / 0x100) % 0x100) as u8,
        ).push(((n as int) % 0x100) as u8));
    }
}

/// Read a big-endian 16-bit integer at `pos`.  `None` exactly when the
/// buffer is too short.
pub fn parse_u16(buf: &Vec<u8>, pos: usize) -> (r: Option<(u16, usize)>)
    ensures
        match r {
            Some((v, end)) => {
                &&& pos + 2 <= buf@.len()
                &&& end == pos + 2
                &&& be16n(v as int) == buf@.subrange(pos as int, pos + 2)
                &&& v as int == buf@[pos as int] * 0x100 + buf@[pos + 1]
            },
            None => pos + 2 > buf@.len(),
        },
{
    if pos < buf.len() && buf.len() - pos >= 2 {
        let v: u16 = (buf[pos] as u16) * 0x100 + (buf[pos + 1] as u16);
        proof {
            let b0 = buf@[pos as int] as int;
            let b1 = buf@[pos + 1] as int;
            assert((b0 * 0x100 + b1) / 0x100 == b0) by (nonlinear_arith)
                requires
                    0 <= b0 < 0x100,
                    0 <= b1 < 0x100,
            ;
            assert((b0 * 0x100 + b1) % 0x100 == b1) by (nonlinear_arith)
                requires
                    0 <= b0 < 0x100,
                    0 <= b1 < 0x100,
            ;
            assert(be16n(v as int) =~= buf@.subrange(pos as int, pos + 2));
        }
        Some((v, pos + 2))
    } else {
        None
    }
}

/// Read a big-endian 32-bit integer at `pos`.
pub fn parse_u32(buf: &Vec<u8>, pos: usize) -> (r: Option<(u32, usize)>)
    ensures
        match r {
            Some((v, end)) => {
                &&& pos + 4 <= buf@.len()
                &&& end == pos + 4
                &&& buf@.subrange(pos as int, pos + 4) == be32n(v as int)
                &&& v as int == u32_at(buf@, pos as int)
            },
            None => pos + 4 > buf@.len(),
        },
{
    if pos < buf.len() && buf.len() - pos >= 4 {
        let b0 = buf[pos];
        let b1 = buf[pos + 1];
        let b2 = buf[pos + 2];
        let b3 = buf[pos + 3];
        let v: u32 = (b0 as u32) * 0x1000000 + (b1 as u32) * 0x10000 + (b2 as u32) * 0x100 + (
        b3 as u32);
        proof {
            assert((v / 0x1000000) % 0x100 == b0 as u32 && (v / 0x10000) % 0x100 == b1 as u32 && (v
                / 0x100) % 0x100 == b2 as u32 && v % 0x100 == b3 as u32) by (bit_vector)
                requires
                    v == (b0 as u32) * 0x1000000 + (b1 as u32) * 0x10000 + (b2 as u32) * 0x100 + (
                    b3 as u32),
            ;
            assert(be32n(v as int) =~= buf@.subrange(pos as int, pos + 4));
        }
        Some((v, pos + 4))
    } else {
        None
    }
}

/// Read a big-endian 64-bit integer at `pos`.
pub fn parse_u64(buf: &Vec<u8>, pos: usize) -> (r: Option<(u64, usize)>)
    ensures
        match r {
            Some((v, end)) => {
                &&& pos + 8 <= buf@.len()
                &&& end == pos + 8
                &&& buf@.subrange(pos as int, pos + 8) == be64n(v as int)
                &&& v as int == u64_at(buf@, pos as int)
            },
            None => pos + 8 > buf@.len(),
        },
{
    if pos < buf.len() && buf.len() - pos >= 8 {
        let b0 = buf[pos];
        let b1 = buf[pos + 1];
        let b2 = buf[pos + 2];
        let b3 = buf[pos + 3];
        let b4 = buf[pos + 4];
        let b5 = buf[pos + 5];
        let b6 = buf[pos + 6];
        let b7 = buf[pos + 7];
        let v: u64 = (b0 as u64) * 0x100000000000000 + (b1 as u64) * 0x1000000000000 + (b2 as u64)
            * 0x10000000000 + (b3 as u64) * 0x100000000 + (b4 as u64) * 0x1000000 + (b5 as u64)
            * 0x10000 + (b6 as u64) * 0x100 + (b7 as u64);
        proof {
            assert((v / 0x100000000000000) % 0x100 == b0 as u64 && (v / 0x1000000000000) % 0x100
                == b1 as u64 && (v / 0x10000000000) % 0x100 == b2 as u64 && (v / 0x100000000)
                % 0x100 == b3 as u64 && (v / 0x1000000) % 0x100 == b4 as u64 && (v / 0x10000)
                % 0x100 == b5 as u64 && (v / 0x100) % 0x100 == b6 as u64 && v % 0x100
                == b7 as u64) by (bit_vector)
                requires
                    v == (b0 as u64) * 0x100000000000000 + (b1 as u64) * 0x1000000000000 + (
                    b2 as u64) * 0x10000000000 + (b3 as u64) * 0x100000000 + (b4 as u64) * 0x1000000
                        + (b5 as u64) * 0x10000 + (b6 as u64) * 0x100 + (b7 as u64),
            ;
            assert(be64n(v as int) =~= buf@.subrange(pos as int, pos + 8));
        }
        Some((v, pos + 8))
    } else {
        None
    }
}

/// Read `n` bytes at `pos`.
pub fn parse_bytes(buf: &Vec<u8>, pos: usize, n: usize) -> (r: Option<(Vec<u8>, usize)>)
    ensures
        match r {
            Some((v, end)) => {
                &&& pos + n <= buf@.len()
                &&& end == pos + n
                &&& v@ == buf@.subrange(pos as int, pos + n as int)
            },
            None => pos + n > buf@.len(),
        },
{
    if pos <= buf.len() && buf.len() - pos >= n {
        let mut v: Vec<u8> = Vec::new();
        let mut k: usize = 0;
        while k < n
            invariant
                pos + n <= buf@.len(),
                buf@.len() <= usize::MAX,
                k <= n,
                v@ == buf@.subrange(pos as int, pos + k as int),
            decreases n - k,
        {
            v.push(buf[pos + k]);
            proof {
                assert(buf@.subrange(pos as int, pos + (k + 1) as int)
                    =~= buf@.subrange(pos as int, pos + k as int).push(buf@[pos + k as int]));
            }
            k = k + 1;
        }
        Some((v, pos + n))
    } else {
        None
    }
}

#[derive(Debug, PartialEq, Eq, Structural, Clone, Copy)]
pub enum WireError {
    /// A name or value is too long for its length prefix.
    TooLong,
    /// A content hash must be exactly 64 bytes of text on the wire.
    BadHashLength,
}

/// The UTF-8 bytes of a string, at spec level.
pub open spec fn utf8(s: Seq<char>) -> Seq<u8> {
    vstd::utf8::encode_utf8(s)
}

/// A name frame: 16-bit length, then the bytes.
pub open spec fn name_frame(bytes: Seq<u8>) -> Seq<u8> {
    be16n(bytes.len() as int) + bytes
}

fn encode_name_frame(bytes: &Vec<u8>) -> (r: Result<Vec<u8>, WireError>)
    ensures
        match r {
            Ok(f) => bytes@.len() < 0x10000 && f@ == name_frame(bytes@),
            Err(e) => bytes@.len() >= 0x10000 && e == WireError::TooLong,
        },
{
    if bytes.len() >= 0x10000 {
        return Err(WireError::TooLong);
    }
    let mut f: Vec<u8> = Vec::new();
    push_be16(&mut f, bytes.len() as u16);
    crate::strutil::append_bytes(&mut f, bytes);
    proof {
        assert(f@ =~= name_frame(bytes@));
    }
    Ok(f)
}

/// The two frames announcing one source: the name frame, then (after
/// the worker's `NeedSource`) the payload frame holding the serialised
/// source-contents record and the blob.
pub fn write_source(name: &str, contents: &crate::recipe::SourceContents, data: &Vec<u8>) -> (r:
    Result<(Vec<u8>, Vec<u8>), WireError>)
    ensures
        match r {
            Ok(f) => {
                &&& utf8(name@).len() < 0x10000
                &&& utf8(
                    crate::recipe_text::enc_source_contents(contents.deep_view()),
                ).len() < 0x100000000
                &&& f.0@ == name_frame(utf8(name@))
                &&& f.1@ == be32n(
                    utf8(crate::recipe_text::enc_source_contents(contents.deep_view())).len()
                        as int,
                ) + utf8(crate::recipe_text::enc_source_contents(contents.deep_view())) + be64n(
                    data@.len() as int,
                ) + data@
            },
            Err(e) => e == WireError::TooLong && (utf8(name@).len() >= 0x10000 || utf8(
                crate::recipe_text::enc_source_contents(contents.deep_view()),
            ).len() >= 0x100000000),
        },
{
    let name_bytes = utf8_bytes_of(name);
    let nf = match encode_name_frame(&name_bytes) {
        Ok(f) => f,
        Err(e) => {
            return Err(e);
        },
    };
    let sc_text = crate::recipe_text::emit_source_contents(contents);
    let sc_bytes = utf8_bytes_of(sc_text.as_str());
    if sc_bytes.len() as u64 >= 0x100000000u64 {
        return Err(WireError::TooLong);
    }
    let mut pf: Vec<u8> = Vec::new();
    push_be32(&mut pf, sc_bytes.len() as u32);
    crate::strutil::append_bytes(&mut pf, &sc_bytes);
    push_be64(&mut pf, data.len() as u64);
    crate::strutil::append_bytes(&mut pf, data);
    proof {
        assert(pf@ =~= be32n(
            utf8(crate::recipe_text::enc_source_contents(contents.deep_view())).len() as int,
        ) + utf8(crate::recipe_text::enc_source_contents(contents.deep_view())) + be64n(
            data@.len() as int,
        ) + data@);
    }
    Ok((nf, pf))
}

/// The two frames announcing one dependency artefact: the name frame
/// (the wire name is `name:version`), then the tar bytes.
pub fn write_dep(name: &str, data: &Vec<u8>) -> (r: Result<(Vec<u8>, Vec<u8>), WireError>)
    ensures
        match r {
            Ok(f) => {
                &&& utf8(name@).len() < 0x10000
                &&& f.0@ == name_frame(utf8(name@))
                &&& f.1@ == be64n(data@.len() as int) + data@
            },
            Err(e) => e == WireError::TooLong && utf8(name@).len() >= 0x10000,
        },
{
    let name_bytes = utf8_bytes_of(name);
    let nf = match encode_name_frame(&name_bytes) {
        Ok(f) => f,
        Err(e) => {
            return Err(e);
        },
    };
    let mut pf: Vec<u8> = Vec::new();
    push_be64(&mut pf, data.len() as u64);
    crate::strutil::append_bytes(&mut pf, data);
    proof {
        assert(pf@ =~= be64n(data@.len() as int) + data@);
    }
    Ok((nf, pf))
}

/// The two frames for one overlay file: its path as raw bytes, then
/// the file bytes.
pub fn write_overlay(path: &Vec<u8>, data: &Vec<u8>) -> (r: Result<(Vec<u8>, Vec<u8>), WireError>)
    ensures
        match r {
            Ok(f) => {
                &&& path@.len() < 0x10000
                &&& f.0@ == name_frame(path@)
                &&& f.1@ == be64n(data@.len() as int) + data@
            },
            Err(e) => e == WireError::TooLong && path@.len() >= 0x10000,
        },
{
    let nf = match encode_name_frame(path) {
        Ok(f) => f,
        Err(e) => {
            return Err(e);
        },
    };
    let mut pf: Vec<u8> = Vec::new();
    push_be64(&mut pf, data.len() as u64);
    crate::strutil::append_bytes(&mut pf, data);
    proof {
        assert(pf@ =~= be64n(data@.len() as int) + data@);
    }
    Ok((nf, pf))
}

/// The in-band end marker of the source stream: a zero-length name.
pub fn finish_sources() -> (r: Vec<u8>)
    ensures
        r@ == be16n(0),
{
    let mut f: Vec<u8> = Vec::new();
    push_be16(&mut f, 0);
    proof {
        assert(f@ =~= be16n(0));
    }
    f
}

/// The end marker of the dependency stream.
pub fn finish_deps() -> (r: Vec<u8>)
    ensures
        r@ == be16n(0),
{
    finish_sources()
}

/// The end marker of the overlay stream.
pub fn finish_overlays() -> (r: Vec<u8>)
    ensures
        r@ == be16n(0),
{
    finish_sources()
}

/// The recipe frame: 64-bit length, then the canonical recipe text.
pub fn write_recipe(recipe: &crate::recipe::NamedRecipeVersion) -> (r: Vec<u8>)
    ensures
        r@ == be64n(utf8(crate::recipe_text::enc_recipe(recipe.deep_view())).len() as int) + utf8(
            crate::recipe_text::enc_recipe(recipe.deep_view()),
        ),
{
    let text = crate::recipe_text::emit_recipe(recipe);
    let bytes = utf8_bytes_of(text.as_str());
    let mut f: Vec<u8> = Vec::new();
    push_be64(&mut f, bytes.len() as u64);
    crate::strutil::append_bytes(&mut f, &bytes);
    proof {
        assert(f@ =~= be64n(utf8(crate::recipe_text::enc_recipe(recipe.deep_view())).len() as int)
            + utf8(crate::recipe_text::enc_recipe(recipe.deep_view())));
    }
    f
}

/// One environment entry on the wire: 16-bit key length, key bytes,
/// 16-bit value length, value bytes.
pub open spec fn enc_env_entry(e: (Seq<char>, Seq<char>)) -> Seq<u8> {
    be16n(utf8(e.0).len() as int) + utf8(e.0) + be16n(utf8(e.1).len() as int) + utf8(e.1)
}

pub open spec fn enc_env_entries(s: Seq<(Seq<char>, Seq<char>)>) -> Seq<u8>
    decreases s.len(),
{
    if s.len() == 0 {
        Seq::empty()
    } else {
        enc_env_entries(s.drop_last()) + enc_env_entry(s.last())
    }
}

/// Every entry's key and value fit a 16-bit length.
pub open spec fn env_entries_fit(s: Seq<(Seq<char>, Seq<char>)>) -> bool {
    forall|i: int|
        0 <= i < s.len() ==> utf8((#[trigger] s[i]).0).len() < 0x10000 && utf8(s[i].1).len()
            < 0x10000
}

/// The environment block: an entry count, then each entry in stored
/// order.
pub fn write_envs(envs: &EnvMap) -> (r: Result<Vec<u8>, WireError>)
    ensures
        match r {
            Ok(f) => envs.entry_seq().len() < 0x10000 && env_entries_fit(envs.entry_seq()) && f@
                == be16n(envs.entry_seq().len() as int) + enc_env_entries(envs.entry_seq()),
            Err(e) => e == WireError::TooLong && (envs.entry_seq().len() >= 0x10000
                || !env_entries_fit(envs.entry_seq())),
        },
{
    let n = envs.len();
    if n >= 0x10000 {
        return Err(WireError::TooLong);
    }
    let mut f: Vec<u8> = Vec::new();
    push_be16(&mut f, n as u16);
    let ghost entries = envs.entry_seq();
    let ghost head = be16n(entries.len() as int);
    proof {
        assert(f@ =~= head + enc_env_entries(entries.take(0))) by {
            assert(enc_env_entries(entries.take(0)) =~= Seq::<u8>::empty());
        }
    }
    let mut i: usize = 0;
    while i < n
        invariant
            n == entries.len(),
            entries == envs.entry_seq(),
            head == be16n(entries.len() as int),
            i <= n,
            env_entries_fit(entries.take(i as int)),
            f@ == head + enc_env_entries(entries.take(i as int)),
        decreases n - i,
    {
        proof {
            assert(entries.take(i + 1).drop_last() =~= entries.take(i as int));
            assert(entries.take(i + 1).last() == entries[i as int]);
        }
        let kb = {
            let e = envs.entry_at(i);
            utf8_bytes_of(e.0.as_str())
        };
        let vb = {
            let e = envs.entry_at(i);
            utf8_bytes_of(e.1.as_str())
        };
        if kb.len() >= 0x10000 || vb.len() >= 0x10000 {
            return Err(WireError::TooLong);
        }
        let ghost f0 = f@;
        push_be16(&mut f, kb.len() as u16);
        crate::strutil::append_bytes(&mut f, &kb);
        push_be16(&mut f, vb.len() as u16);
        crate::strutil::append_bytes(&mut f, &vb);
        proof {
            assert(f@ =~= f0 + enc_env_entry(entries[i as int]));
            assert(f@ =~= head + enc_env_entries(entries.take(i + 1)));
            assert(env_entries_fit(entries.take(i + 1))) by {
                assert(forall|j: int|
                    0 <= j < i ==> (#[trigger] entries.take(i + 1)[j]) == entries.take(
                        i as int,
                    )[j]);
                assert(entries.take(i + 1)[i as int] == entries[i as int]);
            }
        }
        i = i + 1;
    }
    proof {
        assert(entries.take(n as int) =~= entries);
    }
    Ok(f)
}

/// The completion frame the worker sends: the `BuildComplete` tag, 64
/// bytes of hex, the archive length and the archive bytes.
pub fn write_archive(hash: &str, archive: &Vec<u8>) -> (r: Result<Vec<u8>, WireError>)
    ensures
        match r {
            Ok(f) => utf8(hash@).len() == 64 && f@ == seq![WorkerStatus::BuildComplete.as_byte()]
                + utf8(hash@) + be64n(archive@.len() as int) + archive@,
            Err(e) => e == WireError::BadHashLength && utf8(hash@).len() != 64,
        },
{
    let hb = utf8_bytes_of(hash);
    if hb.len() != 64 {
        return Err(WireError::BadHashLength);
    }
    let mut f: Vec<u8> = Vec::new();
    f.push(WorkerStatus::BuildComplete.to_byte());
    crate::strutil::append_bytes(&mut f, &hb);
    push_be64(&mut f, archive.len() as u64);
    crate::strutil::append_bytes(&mut f, archive);
    proof {
        assert(f@ =~= seq![WorkerStatus::BuildComplete.as_byte()] + utf8(hash@) + be64n(
            archive@.len() as int,
        ) + archive@);
    }
    Ok(f)
}

/// The value of the two big-endian bytes at `pos`.
pub open spec fn u16_at(s: Seq<u8>, pos: int) -> int {
    s[pos] * 0x100 + s[pos + 1]
}

/// The value of the four big-endian bytes at `pos`.
pub open spec fn u32_at(s: Seq<u8>, pos: int) -> int {
    s[pos] * 0x1000000 + s[pos + 1] * 0x10000 + s[pos + 2] * 0x100 + s[pos + 3]
}

/// The value of the eight big-endian bytes at `pos`.
pub open spec fn u64_at(s: Seq<u8>, pos: int) -> int {
    s[pos] * 0x100000000000000 + s[pos + 1] * 0x1000000000000 + s[pos + 2] * 0x10000000000 + s[pos
        + 3] * 0x100000000 + s[pos + 4] * 0x1000000 + s[pos + 5] * 0x10000 + s[pos + 6] * 0x100
        + s[pos + 7]
}

/// A name frame on the worker side: `Some(None)` is the end marker,
/// `Some(Some(bytes))` announces a name, `None` means the buffer holds
/// less than a whole frame yet.
pub fn parse_name_frame(buf: &Vec<u8>, pos: usize) -> (r: Option<(Option<Vec<u8>>, usize)>)
    ensures
        match r {
            Some((None, end)) => pos + 2 <= buf@.len() && u16_at(buf@, pos as int) == 0 && end
                == pos + 2,
            Some((Some(name), end)) => {
                &&& pos + 2 + u16_at(buf@, pos as int) <= buf@.len()
                &&& u16_at(buf@, pos as int) > 0
                &&& name@ == buf@.subrange(pos + 2, pos + 2 + u16_at(buf@, pos as int))
                &&& end == pos + 2 + u16_at(buf@, pos as int)
            },
            None => pos + 2 > buf@.len() || pos + 2 + u16_at(buf@, pos as int) > buf@.len(),
        },
{
    let (n, a) = match parse_u16(buf, pos) {
        Some(x) => x,
        None => {
            return None;
        },
    };
    if n == 0 {
        Some((None, a))
    } else {
        match parse_bytes(buf, a, n as usize) {
            Some((name, end)) => Some((Some(name), end)),
            None => None,
        }
    }
}

/// A length-prefixed blob: 64-bit length, then the bytes.
pub fn parse_blob64(buf: &Vec<u8>, pos: usize) -> (r: Option<(Vec<u8>, usize)>)
    ensures
        match r {
            Some((data, end)) => {
                &&& pos + 8 + u64_at(buf@, pos as int) <= buf@.len()
                &&& data@ == buf@.subrange(pos + 8, pos + 8 + u64_at(buf@, pos as int))
                &&& end == pos + 8 + u64_at(buf@, pos as int)
            },
            None => pos + 8 > buf@.len() || pos + 8 + u64_at(buf@, pos as int) > buf@.len()
                || u64_at(buf@, pos as int) > usize::MAX,
        },
{
    let (n, a) = match parse_u64(buf, pos) {
        Some(x) => x,
        None => {
            return None;
        },
    };
    if n > usize::MAX as u64 {
        return None;
    }
    match parse_bytes(buf, a, n as usize) {
        Some((data, end)) => Some((data, end)),
        None => None,
    }
}

/// What a recipe frame denotes: a 64-bit length, then that many bytes
/// of UTF-8 canonical recipe text, which must parse completely.
pub open spec fn p_recipe_frame(s: Seq<u8>, pos: int) -> Option<(
    crate::recipe::NamedRecipeVersionV,
    int,
)> {
    if pos + 8 > s.len() {
        None
    } else {
        let n = u64_at(s, pos);
        if pos + 8 + n > s.len() || n > usize::MAX {
            None
        } else {
            let body = s.subrange(pos + 8, pos + 8 + n);
            if !vstd::utf8::valid_utf8(body) {
                None
            } else {
                let text = vstd::utf8::decode_utf8(body);
                match crate::recipe_parse::p_recipe(text, 0) {
                    None => None,
                    Some((v, consumed)) => if consumed == text.len() {
                        Some((v, pos + 8 + n))
                    } else {
                        None
                    },
                }
            }
        }
    }
}

/// Read the recipe frame the coordinator opens a round with.
pub fn read_recipe(buf: &Vec<u8>, pos: usize) -> (r: Option<(
    crate::recipe::NamedRecipeVersion,
    usize,
)>)
    ensures
        match r {
            Some((v, end)) => p_recipe_frame(buf@, pos as int) == Some(
                (v.deep_view(), end as int),
            ),
            None => p_recipe_frame(buf@, pos as int) is None,
        },
{
    let (body, end) = match parse_blob64(buf, pos) {
        Some(x) => x,
        None => {
            return None;
        },
    };
    let text = match crate::strutil::string_from_utf8(body) {
        Some(t) => t,
        None => {
            return None;
        },
    };
    let cs = crate::strutil::chars_of(text.as_str());
    match crate::recipe_parse::parse_recipe(&cs, 0) {
        None => None,
        Some((v, consumed)) => {
            if consumed == cs.len() {
                Some((v, end))
            } else {
                None
            }
        },
    }
}

/// What a source payload denotes: a 32-bit length of UTF-8
/// source-contents text (parsed completely), then the blob.
pub open spec fn p_source_payload(s: Seq<u8>, pos: int) -> Option<(
    crate::recipe::SourceContentsV,
    Seq<u8>,
    int,
)> {
    if pos + 4 > s.len() {
        None
    } else {
        let n = u32_at(s, pos);
        if pos + 4 + n > s.len() {
            None
        } else {
            let body = s.subrange(pos + 4, pos + 4 + n);
            if !vstd::utf8::valid_utf8(body) {
                None
            } else {
                let text = vstd::utf8::decode_utf8(body);
                match crate::recipe_parse::p_source_contents(text, 0) {
                    None => None,
                    Some((sc, consumed)) => if consumed == text.len() {
                        let dpos = pos + 4 + n;
                        if dpos + 8 + u64_at(s, dpos) > s.len() || u64_at(s, dpos) > usize::MAX {
                            None
                        } else {
                            Some(
                                (
                                    sc,
                                    s.subrange(dpos + 8, dpos + 8 + u64_at(s, dpos)),
                                    dpos + 8 + u64_at(s, dpos),
                                ),
                            )
                        }
                    } else {
                        None
                    },
                }
            }
        }
    }
}

/// Read one source payload: the source-contents record, then the blob.
pub fn read_source_payload(buf: &Vec<u8>, pos: usize) -> (r: Option<(
    crate::recipe::SourceContents,
    Vec<u8>,
    usize,
)>)
    ensures
        match r {
            Some((sc, data, end)) => p_source_payload(buf@, pos as int) == Some(
                (sc.deep_view(), data@, end as int),
            ),
            None => p_source_payload(buf@, pos as int) is None,
        },
{
    let (n, a) = match parse_u32(buf, pos) {
        Some(x) => x,
        None => {
            return None;
        },
    };
    let (body, b) = match parse_bytes(buf, a, n as usize) {
        Some(x) => x,
        None => {
            return None;
        },
    };
    let text = match crate::strutil::string_from_utf8(body) {
        Some(t) => t,
        None => {
            return None;
        },
    };
    let cs = crate::strutil::chars_of(text.as_str());
    let (sc, consumed) = match crate::recipe_parse::parse_source_contents(&cs, 0) {
        Some(x) => x,
        None => {
            return None;
        },
    };
    if consumed != cs.len() {
        return None;
    }
    match parse_blob64(buf, b) {
        Some((data, end)) => Some((sc, data, end)),
        None => None,
    }
}

/// What the environment block denotes: decoded key/value pairs.
pub open spec fn p_env_items(s: Seq<u8>, pos: int, n: int) -> Option<(
    Seq<(Seq<char>, Seq<char>)>,
    int,
)>
    decreases n,
{
    if n <= 0 {
        Some((Seq::empty(), pos))
    } else if pos + 2 > s.len() {
        None
    } else {
        let kl = u16_at(s, pos);
        if pos + 2 + kl + 2 > s.len() {
            None
        } else {
            let kb = s.subrange(pos + 2, pos + 2 + kl);
            let vpos = pos + 2 + kl;
            let vl = u16_at(s, vpos);
            if vpos + 2 + vl > s.len() {
                None
            } else {
                let vb = s.subrange(vpos + 2, vpos + 2 + vl);
                if !vstd::utf8::valid_utf8(kb) || !vstd::utf8::valid_utf8(vb) {
                    None
                } else {
                    match p_env_items(s, vpos + 2 + vl, n - 1) {
                        None => None,
                        Some((rest, e)) => Some(
                            (
                                seq![
                                    (vstd::utf8::decode_utf8(kb), vstd::utf8::decode_utf8(vb)),
                                ] + rest,
                                e,
                            ),
                        ),
                    }
                }
            }
        }
    }
}

pub open spec fn p_envs(s: Seq<u8>, pos: int) -> Option<(Seq<(Seq<char>, Seq<char>)>, int)> {
    if pos + 2 > s.len() {
        None
    } else {
        p_env_items(s, pos + 2, u16_at(s, pos))
    }
}

/// Read the environment block into an environment map; later entries
/// for a repeated key win, as map insertion does.
pub fn read_envs(buf: &Vec<u8>, pos: usize) -> (r: Option<(EnvMap, usize)>)
    ensures
        match r {
            Some((env, end)) => p_envs(buf@, pos as int) matches Some((items, e)) && e
                == end as int && env.wf() && env@ == crate::envmap::map_of(items),
            None => p_envs(buf@, pos as int) is None,
        },
{
    let (n16, a) = match parse_u16(buf, pos) {
        Some(x) => x,
        None => {
            return None;
        },
    };
    let n = n16 as usize;
    let mut env = EnvMap::new();
    let mut k: usize = 0;
    let mut cur: usize = a;
    let ghost mut acc: Seq<(Seq<char>, Seq<char>)> = Seq::empty();
    proof {
        if p_env_items(buf@, a as int, n as int) is Some {
            let t = p_env_items(buf@, a as int, n as int)->Some_0;
            assert(acc + t.0 =~= t.0);
        }
        assert(crate::envmap::map_of(acc) =~= Map::<Seq<char>, Seq<char>>::empty());
    }
    while k < n
        invariant
            env.wf(),
            k <= n,
            cur <= buf@.len(),
            env@ == crate::envmap::map_of(acc),
            p_envs(buf@, pos as int) == p_env_items(buf@, a as int, n as int),
            p_env_items(buf@, a as int, n as int) == match p_env_items(
                buf@,
                cur as int,
                n - k,
            ) {
                None => None::<(Seq<(Seq<char>, Seq<char>)>, int)>,
                Some((rest, e)) => Some((acc + rest, e)),
            },
        decreases n - k,
    {
        let (kl, b) = match parse_u16(buf, cur) {
            Some(x) => x,
            None => {
                return None;
            },
        };
        let (kb, c) = match parse_bytes(buf, b, kl as usize) {
            Some(x) => x,
            None => {
                return None;
            },
        };
        let (vl, d) = match parse_u16(buf, c) {
            Some(x) => x,
            None => {
                return None;
            },
        };
        let (vb, e) = match parse_bytes(buf, d, vl as usize) {
            Some(x) => x,
            None => {
                return None;
            },
        };
        let ks = match crate::strutil::string_from_utf8(kb) {
            Some(x) => x,
            None => {
                return None;
            },
        };
        let vs = match crate::strutil::string_from_utf8(vb) {
            Some(x) => x,
            None => {
                return None;
            },
        };
        proof {
            let pr = (ks@, vs@);
            assert(crate::envmap::map_of(acc.push(pr)) == crate::envmap::map_of(acc).insert(
                pr.0,
                pr.1,
            )) by {
                assert(acc.push(pr).drop_last() =~= acc);
            }
            if p_env_items(buf@, e as int, n - k - 1) is Some {
                let t = p_env_items(buf@, e as int, n - k - 1)->Some_0;
                assert(acc + (seq![pr] + t.0) =~= acc.push(pr) + t.0);
            }
            acc = acc.push(pr);
        }
        env.insert(ks, vs);
        cur = e;
        k = k + 1;
    }
    proof {
        assert(acc + Seq::<(Seq<char>, Seq<char>)>::empty() =~= acc);
    }
    Some((env, cur))
}

/// The completion frame, coordinator side: 64 bytes of hash text, then
/// the archive.
pub fn read_archive(buf: &Vec<u8>, pos: usize) -> (r: Option<(Vec<u8>, Vec<u8>, usize)>)
    ensures
        match r {
            Some((hash, data, end)) => {
                &&& pos + 64 <= buf@.len()
                &&& hash@ == buf@.subrange(pos as int, pos + 64)
                &&& pos + 64 + 8 + u64_at(buf@, pos + 64) <= buf@.len()
                &&& data@ == buf@.subrange(
                    pos + 64 + 8,
                    pos + 64 + 8 + u64_at(buf@, pos + 64),
                )
                &&& end == pos + 64 + 8 + u64_at(buf@, pos + 64)
            },
            None => pos + 64 > buf@.len() || pos + 64 + 8 > buf@.len() || pos + 64 + 8 + u64_at(
                buf@,
                pos + 64,
            ) > buf@.len() || u64_at(buf@, pos + 64) > usize::MAX,
        },
{
    let (hash, a) = match parse_bytes(buf, pos, 64) {
        Some(x) => x,
        None => {
            return None;
        },
    };
    match parse_blob64(buf, a) {
        Some((data, end)) => Some((hash, data, end)),
        None => None,
    }
}

/// The coordinator's position in a session round; each phase fixes the
/// one status byte the worker must send next.
#[derive(Debug, PartialEq, Eq, Structural, Clone, Copy)]
pub enum SessionPhase {
    AwaitWork,
    Sources,
    SourcePayload,
    Deps,
    DepPayload,
    Overlays,
    OverlayPayload,
    Envs,
    Complete,
}

pub open spec fn expected_status_spec(p: SessionPhase) -> WorkerStatus {
    match p {
        SessionPhase::AwaitWork => WorkerStatus::ReadyForWork,
        SessionPhase::Sources => WorkerStatus::ReadyForSource,
        SessionPhase::SourcePayload => WorkerStatus::NeedSource,
        SessionPhase::Deps => WorkerStatus::ReadyForDep,
        SessionPhase::DepPayload => WorkerStatus::NeedDep,
        SessionPhase::Overlays => WorkerStatus::ReadyForOverlay,
        SessionPhase::OverlayPayload => WorkerStatus::NeedOverlay,
        SessionPhase::Envs => WorkerStatus::ReadyForEnvs,
        SessionPhase::Complete => WorkerStatus::BuildComplete,
    }
}

/// The status byte the coordinator must see before its next send.
pub fn expected_status(p: SessionPhase) -> (r: WorkerStatus)
    ensures
        r == expected_status_spec(p),
{
    match p {
        SessionPhase::AwaitWork => WorkerStatus::ReadyForWork,
        SessionPhase::Sources => WorkerStatus::ReadyForSource,
        SessionPhase::SourcePayload => WorkerStatus::NeedSource,
        SessionPhase::Deps => WorkerStatus::ReadyForDep,
        SessionPhase::DepPayload => WorkerStatus::NeedDep,
        SessionPhase::Overlays => WorkerStatus::ReadyForOverlay,
        SessionPhase::OverlayPayload => WorkerStatus::NeedOverlay,
        SessionPhase::Envs => WorkerStatus::ReadyForEnvs,
        SessionPhase::Complete => WorkerStatus::BuildComplete,
    }
}

#[derive(Debug, PartialEq, Eq, Structural, Clone, Copy)]
pub enum ProtocolError {
    /// The worker sent `got` where the protocol demands `want`.
    UnexpectedStatus { got: u8, want: u8 },
}

/// The lockstep check: a received status byte is accepted exactly when
/// it is the one the current phase demands.  Any omitted or reordered
/// status byte is rejected at the offending step.
pub fn check_status(p: SessionPhase, got: u8) -> (r: Result<(), ProtocolError>)
    ensures
        r is Ok <==> got == expected_status_spec(p).as_byte(),
        r matches Err(ProtocolError::UnexpectedStatus { got: g, want: w }) ==> g == got && w
            == expected_status_spec(p).as_byte() && got != w,
{
    let want = expected_status(p).to_byte();
    if got == want {
        Ok(())
    } else {
        Err(ProtocolError::UnexpectedStatus { got, want })
    }
}

/// Where the coordinator stands after sending in phase `p`.  In a
/// stream phase `more` says whether a name frame (rather than the end
/// marker) was just sent; payload phases return to their stream.
pub open spec fn advance_spec(p: SessionPhase, more: bool) -> SessionPhase {
    match p {
        SessionPhase::AwaitWork => SessionPhase::Sources,
        SessionPhase::Sources => if more {
            SessionPhase::SourcePayload
        } else {
            SessionPhase::Deps
        },
        SessionPhase::SourcePayload => SessionPhase::Sources,
        SessionPhase::Deps => if more {
            SessionPhase::DepPayload
        } else {
            SessionPhase::Overlays
        },
        SessionPhase::DepPayload => SessionPhase::Deps,
        SessionPhase::Overlays => if more {
            SessionPhase::OverlayPayload
        } else {
            SessionPhase::Envs
        },
        SessionPhase::OverlayPayload => SessionPhase::Overlays,
        SessionPhase::Envs => SessionPhase::Complete,
        SessionPhase::Complete => SessionPhase::Complete,
    }
}

pub fn advance(p: SessionPhase, more: bool) -> (r: SessionPhase)
    ensures
        r == advance_spec(p, more),
{
    match p {
        SessionPhase::AwaitWork => SessionPhase::Sources,
        SessionPhase::Sources => if more {
            SessionPhase::SourcePayload
        } else {
            SessionPhase::Deps
        },
        SessionPhase::SourcePayload => SessionPhase::Sources,
        SessionPhase::Deps => if more {
            SessionPhase::DepPayload
        } else {
            SessionPhase::Overlays
        },
        SessionPhase::DepPayload => SessionPhase::Deps,
        SessionPhase::Overlays => if more {
            SessionPhase::OverlayPayload
        } else {
            SessionPhase::Envs
        },
        SessionPhase::OverlayPayload => SessionPhase::Overlays,
        SessionPhase::Envs => SessionPhase::Complete,
        SessionPhase::Complete => SessionPhase::Complete,
    }
}

} // verus!
