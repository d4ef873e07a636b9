//! Lossless PNG recompression through oxipng.

use vstd::prelude::*;
use crate::kinds::StripPolicy;
use crate::outcome::{OptimizeOutcome, outcome_of};

verus! {

/// What oxipng makes of a PNG with a preset level, an alpha-optimization
/// switch and a chunk-stripping policy: the optimized file, or the text of
/// its error.
pub uninterp spec fn oxipng_output(data: Seq<u8>, level: u8, optimize_alpha: bool, strip: StripPolicy) -> Result<
    Seq<u8>,
    Seq<char>,
>;

/// The value of an oxipng result, the error taken by its text.
pub open spec fn png_result_view(r: Result<Vec<u8>, String>) -> Result<Seq<u8>, Seq<char>> {
    match r {
        Ok(bytes) => Ok(bytes@),
        Err(e) => Err(e@),
    }
}

/// The big-endian 32-bit value of `b[i..i + 4]`.
pub open spec fn be32(b: Seq<u8>, i: int) -> int {
    b[i] as int * 16777216 + b[i + 1] as int * 65536 + b[i + 2] as int * 256 + b[i + 3] as int
}

/// The PNG signature and the chunk names `IEND`, `IDAT`, `fcTL` and `fdAT`.
pub open spec fn png_signature() -> Seq<u8> { seq![0x89u8, 0x50, 0x4e, 0x47, 0x0d, 0x0a, 0x1a, 0x0a] }
pub open spec fn name_iend() -> Seq<u8> { seq![0x49u8, 0x45, 0x4e, 0x44] }
pub open spec fn name_idat() -> Seq<u8> { seq![0x49u8, 0x44, 0x41, 0x54] }
pub open spec fn name_fctl() -> Seq<u8> { seq![0x66u8, 0x63, 0x54, 0x4c] }
pub open spec fn name_fdat() -> Seq<u8> { seq![0x66u8, 0x64, 0x41, 0x54] }

/// One bit step of the reflected CRC-32 (polynomial `0xEDB88320`).
pub open spec fn crc_step(c: u32) -> u32 {
    if c & 1u32 == 1u32 {
        (c >> 1u32) ^ 0xedb8_8320u32
    } else {
        c >> 1u32
    }
}

/// `n` bit steps of the CRC-32 register.
pub open spec fn crc_bits(c: u32, n: nat) -> u32
    decreases n,
{
    if n == 0 {
        c
    } else {
        crc_bits(crc_step(c), (n - 1) as nat)
    }
}

/// The CRC-32 register after the bytes `b[s..e]`, starting from all ones.
pub open spec fn crc_register(b: Seq<u8>, s: int, e: int) -> u32
    decreases e - s,
{
    if e <= s {
        0xffff_ffffu32
    } else {
        crc_bits(crc_register(b, s, e - 1) ^ (b[e - 1] as u32), 8)
    }
}

/// The CRC-32 of `b[s..e]`, as PNG chunks carry it (ISO-HDLC).
pub open spec fn crc32_of(b: Seq<u8>, s: int, e: int) -> u32 {
    !crc_register(b, s, e)
}

/// Does oxipng, reading the chunks of `b` from `off` while keeping the
/// animation chunks, come to read the sequence number of an `fcTL` or
/// `fdAT` chunk whose payload is shorter than 4 bytes? It walks the chunks
/// as `PngData::from_slice` does: it stops, with an error of its own, at a
/// truncated chunk, a CRC mismatch, a sequence number out of order, a
/// frame-control chunk after image data that is too short for a frame, or
/// frame data with no frame before it; it stops without error at `IEND`.
/// `seq` is the next expected sequence number, `idat` whether image data
/// was read, `frames` whether a frame was started. A sequence counter that
/// would pass `u32::MAX` is counted as such a read too.
pub open spec fn short_frame_read_from(b: Seq<u8>, off: int, seq: int, idat: bool, frames: bool) -> bool
    decreases b.len() - off,
{
    if off < 0 || off + 4 > b.len() {
        false
    } else {
        let l = be32(b, off);
        let next = off + 12 + l;
        if b.len() < next {
            false
        } else {
            let name = b.subrange(off + 4, off + 8);
            if name == name_iend() {
                false
            } else if crc32_of(b, off + 4, off + 8 + l) != be32(b, off + 8 + l) {
                false
            } else if name == name_idat() {
                short_frame_read_from(b, next, seq, idat || l > 0, frames)
            } else if name == name_fctl() || name == name_fdat() {
                if l < 4 {
                    true
                } else if be32(b, off + 8) != seq {
                    false
                } else if seq >= 0xffff_ffff {
                    true
                } else if name == name_fctl() && idat {
                    if l < 26 {
                        false
                    } else {
                        short_frame_read_from(b, next, seq + 1, idat, true)
                    }
                } else if name == name_fdat() && !frames {
                    false
                } else {
                    short_frame_read_from(b, next, seq + 1, idat, frames)
                }
            } else {
                short_frame_read_from(b, next, seq, idat, frames)
            }
        }
    }
}

/// Does oxipng, keeping the animation chunks of the PNG `b`, come to read
/// a sequence number that an `fcTL` or `fdAT` chunk is too short to hold?
pub open spec fn short_frame_read(b: Seq<u8>) -> bool {
    b.len() >= 8 && b.take(8) == png_signature() && short_frame_read_from(b, 8, 0, false, false)
}

/// The CRC-32 of `b[s..e]`.
fn crc32_range(b: &[u8], s: usize, e: usize) -> (r: u32)
    requires
        s <= e <= b.len(),
    ensures
        r == crc32_of(b@, s as int, e as int),
{
    let mut c: u32 = 0xffff_ffff;
    let mut i: usize = s;
    while i < e
        invariant
            s <= i <= e,
            e <= b.len(),
            c == crc_register(b@, s as int, i as int),
        decreases e - i,
    {
        let mut x: u32 = c ^ (b[i] as u32);
        let ghost x0: u32 = x;
        let mut k: u32 = 0;
        while k < 8
            invariant
                k <= 8,
                crc_bits(x0, 8) == crc_bits(x, (8 - k) as nat),
            decreases 8 - k,
        {
            x = if x & 1u32 == 1u32 {
                (x >> 1u32) ^ 0xedb8_8320u32
            } else {
                x >> 1u32
            };
            k = k + 1;
        }
        c = x;
        i = i + 1;
    }
    !c
}

/// Are the four bytes `b[i..i + 4]` the name `n`?
fn name_is(b: &[u8], i: usize, n0: u8, n1: u8, n2: u8, n3: u8) -> (r: bool)
    requires
        i + 4 <= b.len(),
    ensures
        r == (b@.subrange(i as int, i + 4) == seq![n0, n1, n2, n3]),
{
    let r = b[i] == n0 && b[i + 1] == n1 && b[i + 2] == n2 && b[i + 3] == n3;
    proof {
        let name = b@.subrange(i as int, i + 4);
        let want = seq![n0, n1, n2, n3];
        if r {
            assert(name =~= want);
        } else if name == want {
            assert(name[0] == want[0] && name[1] == want[1] && name[2] == want[2] && name[3] == want[3]);
        }
    }
    r
}

/// The big-endian 32-bit value of `b[i..i + 4]`.
fn be32_at(b: &[u8], i: usize) -> (r: u64)
    requires
        i + 4 <= b.len(),
    ensures
        r == be32(b@, i as int),
{
    b[i] as u64 * 16777216 + b[i + 1] as u64 * 65536 + b[i + 2] as u64 * 256 + b[i + 3] as u64
}

/// Does oxipng, keeping the animation chunks of `b`, come to read a
/// sequence number that an animation chunk is too short to hold?
fn short_frame_read_exec(b: &[u8]) -> (r: bool)
    ensures
        r == short_frame_read(b@),
{
    if b.len() < 8 || !(name_is(b, 0, 0x89, 0x50, 0x4e, 0x47) && name_is(b, 4, 0x0d, 0x0a, 0x1a, 0x0a)) {
        proof {
            if b.len() >= 8 && b@.take(8) == png_signature() {
                assert(b@.subrange(0, 4) =~= b@.take(8).subrange(0, 4));
                assert(b@.subrange(4, 8) =~= b@.take(8).subrange(4, 8));
                assert(png_signature().subrange(0, 4) =~= seq![0x89u8, 0x50, 0x4e, 0x47]);
                assert(png_signature().subrange(4, 8) =~= seq![0x0du8, 0x0a, 0x1a, 0x0a]);
            }
        }
        return false;
    }
    proof {
        assert(b@.take(8) =~= b@.subrange(0, 4) + b@.subrange(4, 8));
        assert(b@.take(8) =~= png_signature());
    }
    let mut off: usize = 8;
    let mut seq: u64 = 0;
    let mut idat = false;
    let mut frames = false;
    while off <= b.len() && b.len() - off >= 4
        invariant
            8 <= off,
            seq <= 0xffff_ffff,
            short_frame_read(b@) == short_frame_read_from(b@, off as int, seq as int, idat, frames),
        decreases b@.len() - off,
    {
        let l: u64 = be32_at(b, off);
        if ((b.len() - off) as u64) < 12 + l {
            return false;
        }
        let lu = l as usize;
        let next = off + 12 + lu;
        if name_is(b, off + 4, 0x49, 0x45, 0x4e, 0x44) {
            return false;
        }
        if crc32_range(b, off + 4, off + 8 + lu) != be32_at(b, off + 8 + lu) as u32 {
            return false;
        }
        let is_fctl = name_is(b, off + 4, 0x66, 0x63, 0x54, 0x4c);
        let is_fdat = name_is(b, off + 4, 0x66, 0x64, 0x41, 0x54);
        if name_is(b, off + 4, 0x49, 0x44, 0x41, 0x54) {
            idat = idat || l > 0;
        } else if is_fctl || is_fdat {
            if l < 4 {
                return true;
            }
            if be32_at(b, off + 8) != seq {
                return false;
            }
            if seq >= 0xffff_ffff {
                return true;
            }
            if is_fctl && idat {
                if l < 26 {
                    return false;
                }
                frames = true;
            } else if is_fdat && !frames {
                return false;
            }
            seq = seq + 1;
        }
        off = next;
    }
    false
}

/// Runs `oxipng::optimize_from_memory` on `data` with the options of
/// `oxipng::Options::from_preset(level)` (levels above 6 act as 6), the
/// given `optimize_alpha`, and the chunk stripping of the policy (keep:
/// `StripChunks::None`, safe: `StripChunks::Safe`, all: `StripChunks::All`).
/// No timeout is set, so the result depends on the arguments alone. When
/// chunks are kept, oxipng reads the sequence number of each `fcTL` and
/// `fdAT` chunk it keeps without checking the payload's length, and a
/// shorter payload makes it panic; files on which its chunk walk comes to
/// such a read are not handed to it.
#[verifier::external_body]
fn oxipng_optimize(data: &[u8], level: u8, optimize_alpha: bool, strip: StripPolicy) -> (r: Result<
    Vec<u8>,
    String,
>)
    requires
        strip == StripPolicy::All || !short_frame_read(data@),
    ensures
        png_result_view(r) == oxipng_output(data@, level, optimize_alpha, strip),
{
    let mut options = oxipng::Options::from_preset(level);
    options.optimize_alpha = optimize_alpha;
    options.strip = match strip {
        StripPolicy::Keep => oxipng::StripChunks::None,
        StripPolicy::Safe => oxipng::StripChunks::Safe,
        StripPolicy::All => oxipng::StripChunks::All,
    };
    oxipng::optimize_from_memory(data, &options).map_err(|err| err.to_string())
}

/// The result of recompressing the PNG `data`: a file on which oxipng would
/// come to read the sequence number of an animation chunk too short to hold
/// one is refused, unless every ancillary chunk is stripped; otherwise it is
/// what oxipng makes of it.
pub open spec fn png_result(data: Seq<u8>, level: u8, strip: StripPolicy) -> Result<Seq<u8>, Seq<char>> {
    if strip == StripPolicy::All || !short_frame_read(data) {
        oxipng_output(data, level, false, strip)
    } else {
        Err("PNG animation chunk is too short to hold a sequence number"@)
    }
}

/// Recompresses a PNG losslessly at the given level, leaving the color
/// values of transparent pixels alone and stripping the chunks the policy
/// strips.
pub fn optimize_png_bytes(original: &[u8], level: u8, strip: StripPolicy) -> (r: Result<Vec<u8>, String>)
    ensures
        png_result_view(r) == png_result(original@, level, strip),
{
    if strip != StripPolicy::All && short_frame_read_exec(original) {
        return Err("PNG animation chunk is too short to hold a sequence number".to_string());
    }
    oxipng_optimize(original, level, false, strip)
}

/// PNG optimization of the file contents `original`: the recompressed file
/// is kept when strictly smaller; an error makes a failure.
pub fn optimize_png(original: &[u8], level: u8, strip: StripPolicy, dry_run: bool) -> (r: (
    OptimizeOutcome,
    Option<Vec<u8>>,
))
    ensures
        crate::outcome::written(r.1) == crate::outcome::write_of(png_result(original@, level, strip), original@.len() as int, dry_run),
        match png_result(original@, level, strip) {
            Err(e) => (r.0 matches OptimizeOutcome::Failed { error } && error@ == e) && r.1 is None,
            Ok(out) => {
                &&& out.len() >= original@.len() ==> r.0 == (OptimizeOutcome::Unchanged {
                    size: original@.len() as u64,
                }) && r.1 is None
                &&& out.len() < original@.len() ==> r.0 == (OptimizeOutcome::Optimized {
                    before: original@.len() as u64,
                    after: out.len() as u64,
                })
                &&& out.len() < original@.len() && !dry_run ==> (r.1 matches Some(b) && b@ == out)
                &&& out.len() < original@.len() && dry_run ==> r.1 is None
            },
        },
{
    let result = optimize_png_bytes(original, level, strip);
    outcome_of(result, original.len() as u64, dry_run)
}

/// The PNG signature is `89 50 4E 47 0D 0A 1A 0A`, and the chunk names
/// looked at are the ASCII texts `IEND`, `IDAT`, `fcTL` and `fdAT`.
pub proof fn lemma_png_codes()
    ensures
        png_signature() == seq![0x89u8, 0x50, 0x4e, 0x47, 0x0d, 0x0a, 0x1a, 0x0a],
        name_iend() == seq![0x49u8, 0x45, 0x4e, 0x44],
        name_idat() == seq![0x49u8, 0x44, 0x41, 0x54],
        name_fctl() == seq![0x66u8, 0x63, 0x54, 0x4c],
        name_fdat() == seq![0x66u8, 0x64, 0x41, 0x54],
{
}

} // verus!
