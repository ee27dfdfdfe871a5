//! The MD5 digest, as the library's utility for content fingerprints.
//!
//! A digest is computed incrementally: a [`Context`] consumes byte slices
//! and is finalized into the 16-byte [`Digest`].  All state arithmetic is
//! the algorithm's wrapping 32-bit arithmetic.

use vstd::prelude::*;

verus! {

/// A 16-byte digest.
#[derive(Debug, Eq, PartialEq, Clone, Copy)]
pub struct Digest(pub [u8; 16]);

/// An incremental digest computation.
#[derive(Debug, Eq, PartialEq, Clone)]
pub struct Context {
    lo: u32,
    hi: u32,
    a: u32,
    b: u32,
    c: u32,
    d: u32,
    input: Vec<u8>,
}

fn rotate_add(sum: u32, s: u32, b: u32) -> (r: u32)
    requires
        0 < s < 32,
{
    ((sum << s) | (sum >> (32 - s))).wrapping_add(b)
}

fn ff(a: u32, b: u32, c: u32, d: u32, x: u32, s: u32, ac: u32) -> (r: u32)
    requires
        0 < s < 32,
{
    rotate_add(a.wrapping_add((b & c) | (!b & d)).wrapping_add(x).wrapping_add(ac), s, b)
}

fn gg(a: u32, b: u32, c: u32, d: u32, x: u32, s: u32, ac: u32) -> (r: u32)
    requires
        0 < s < 32,
{
    rotate_add(a.wrapping_add((b & d) | (c & !d)).wrapping_add(x).wrapping_add(ac), s, b)
}

fn hh(a: u32, b: u32, c: u32, d: u32, x: u32, s: u32, ac: u32) -> (r: u32)
    requires
        0 < s < 32,
{
    rotate_add(a.wrapping_add(b ^ c ^ d).wrapping_add(x).wrapping_add(ac), s, b)
}

fn ii(a: u32, b: u32, c: u32, d: u32, x: u32, s: u32, ac: u32) -> (r: u32)
    requires
        0 < s < 32,
{
    rotate_add(a.wrapping_add(c ^ (b | !d)).wrapping_add(x).wrapping_add(ac), s, b)
}

/// One 64-byte block: the four rounds over the 16 words of `x`.
fn transform(a0: u32, b0: u32, c0: u32, d0: u32, x: &Vec<u32>) -> (r: (u32, u32, u32, u32))
    requires
        x@.len() == 16,
{
    let mut a = a0;
    let mut b = b0;
    let mut c = c0;
    let mut d = d0;

    a = ff(a, b, c, d, x[0], 7, 3_614_090_360);
    d = ff(d, a, b, c, x[1], 12, 3_905_402_710);
    c = ff(c, d, a, b, x[2], 17, 606_105_819);
    b = ff(b, c, d, a, x[3], 22, 3_250_441_966);
    a = ff(a, b, c, d, x[4], 7, 4_118_548_399);
    d = ff(d, a, b, c, x[5], 12, 1_200_080_426);
    c = ff(c, d, a, b, x[6], 17, 2_821_735_955);
    b = ff(b, c, d, a, x[7], 22, 4_249_261_313);
    a = ff(a, b, c, d, x[8], 7, 1_770_035_416);
    d = ff(d, a, b, c, x[9], 12, 2_336_552_879);
    c = ff(c, d, a, b, x[10], 17, 4_294_925_233);
    b = ff(b, c, d, a, x[11], 22, 2_304_563_134);
    a = ff(a, b, c, d, x[12], 7, 1_804_603_682);
    d = ff(d, a, b, c, x[13], 12, 4_254_626_195);
    c = ff(c, d, a, b, x[14], 17, 2_792_965_006);
    b = ff(b, c, d, a, x[15], 22, 1_236_535_329);

    a = gg(a, b, c, d, x[1], 5, 4_129_170_786);
    d = gg(d, a, b, c, x[6], 9, 3_225_465_664);
    c = gg(c, d, a, b, x[11], 14, 643_717_713);
    b = gg(b, c, d, a, x[0], 20, 3_921_069_994);
    a = gg(a, b, c, d, x[5], 5, 3_593_408_605);
    d = gg(d, a, b, c, x[10], 9, 38_016_083);
    c = gg(c, d, a, b, x[15], 14, 3_634_488_961);
    b = gg(b, c, d, a, x[4], 20, 3_889_429_448);
    a = gg(a, b, c, d, x[9], 5, 568_446_438);
    d = gg(d, a, b, c, x[14], 9, 3_275_163_606);
    c = gg(c, d, a, b, x[3], 14, 4_107_603_335);
    b = gg(b, c, d, a, x[8], 20, 1_163_531_501);
    a = gg(a, b, c, d, x[13], 5, 2_850_285_829);
    d = gg(d, a, b, c, x[2], 9, 4_243_563_512);
    c = gg(c, d, a, b, x[7], 14, 1_735_328_473);
    b = gg(b, c, d, a, x[12], 20, 2_368_359_562);

    a = hh(a, b, c, d, x[5], 4, 4_294_588_738);
    d = hh(d, a, b, c, x[8], 11, 2_272_392_833);
    c = hh(c, d, a, b, x[11], 16, 1_839_030_562);
    b = hh(b, c, d, a, x[14], 23, 4_259_657_740);
    a = hh(a, b, c, d, x[1], 4, 2_763_975_236);
    d = hh(d, a, b, c, x[4], 11, 1_272_893_353);
    c = hh(c, d, a, b, x[7], 16, 4_139_469_664);
    b = hh(b, c, d, a, x[10], 23, 3_200_236_656);
    a = hh(a, b, c, d, x[13], 4, 681_279_174);
    d = hh(d, a, b, c, x[0], 11, 3_936_430_074);
    c = hh(c, d, a, b, x[3], 16, 3_572_445_317);
    b = hh(b, c, d, a, x[6], 23, 76_029_189);
    a = hh(a, b, c, d, x[9], 4, 3_654_602_809);
    d = hh(d, a, b, c, x[12], 11, 3_873_151_461);
    c = hh(c, d, a, b, x[15], 16, 530_742_520);
    b = hh(b, c, d, a, x[2], 23, 3_299_628_645);

    a = ii(a, b, c, d, x[0], 6, 4_096_336_452);
    d = ii(d, a, b, c, x[7], 10, 1_126_891_415);
    c = ii(c, d, a, b, x[14], 15, 2_878_612_391);
    b = ii(b, c, d, a, x[5], 21, 4_237_533_241);
    a = ii(a, b, c, d, x[12], 6, 1_700_485_571);
    d = ii(d, a, b, c, x[3], 10, 2_399_980_690);
    c = ii(c, d, a, b, x[10], 15, 4_293_915_773);
    b = ii(b, c, d, a, x[1], 21, 2_240_044_497);
    a = ii(a, b, c, d, x[8], 6, 1_873_313_359);
    d = ii(d, a, b, c, x[15], 10, 4_264_355_552);
    c = ii(c, d, a, b, x[6], 15, 2_734_768_916);
    b = ii(b, c, d, a, x[13], 21, 1_309_151_649);
    a = ii(a, b, c, d, x[4], 6, 4_149_444_226);
    d = ii(d, a, b, c, x[11], 10, 3_174_756_917);
    c = ii(c, d, a, b, x[2], 15, 718_787_259);
    b = ii(b, c, d, a, x[9], 21, 3_951_481_745);

    (a0.wrapping_add(a), b0.wrapping_add(b), c0.wrapping_add(c), d0.wrapping_add(d))
}

impl Context {
    /// Well-formed: the block buffer holds exactly 64 bytes.
    pub closed spec fn wf(self) -> bool {
        self.input@.len() == 64
    }

    /// A fresh computation.
    pub fn new() -> (r: Context)
        ensures
            r.wf(),
    {
        let mut input: Vec<u8> = Vec::with_capacity(64);
        let mut i: usize = 0;
        while i < 64
            invariant
                input@.len() == i,
                0 <= i <= 64,
            decreases 64 - i,
        {
            input.push(0);
            i = i + 1;
        }
        Context {
            lo: 0,
            hi: 0,
            a: 0x6745_2301,
            b: 0xefcd_ab89,
            c: 0x98ba_dcfe,
            d: 0x1032_5476,
            input,
        }
    }

    /// Consumes more data.
    pub fn consume(&mut self, data: &[u8])
        requires
            old(self).wf(),
        ensures
            final(self).wf(),
    {
        let lo0 = self.lo;
        let mut k: usize = ((lo0 >> 3) & 0x3F) as usize;
        proof {
            assert(((lo0 >> 3) & 0x3F) < 64u32) by (bit_vector);
        }
        let length = #[verifier::truncate] (data.len() as u32);
        let bits = length.wrapping_mul(8);
        if self.lo.wrapping_add(bits) < self.lo {
            self.hi = self.hi.wrapping_add(1);
        }
        self.lo = self.lo.wrapping_add(bits);
        self.hi = self.hi.wrapping_add(length >> 29);
        let n = data.len();
        let mut i: usize = 0;
        while i < n
            invariant
                0 <= i <= n,
                n == data@.len(),
                k < 64,
                self.input@.len() == 64,
            decreases n - i,
        {
            self.input[k] = data[i];
            k = k + 1;
            if k == 64 {
                let words = block_words_partial(&self.input, 16);
                let (a, b, c, d) = transform(self.a, self.b, self.c, self.d, &words);
                self.a = a;
                self.b = b;
                self.c = c;
                self.d = d;
                k = 0;
            }
            i = i + 1;
        }
    }

    /// Finalizes: pads to a block boundary, folds in the bit count, and
    /// returns the digest.
    pub fn compute(self) -> (r: Digest)
        requires
            self.wf(),
    {
        let mut ctx = self;
        let lo0 = ctx.lo;
        let k: usize = ((lo0 >> 3) & 0x3F) as usize;
        proof {
            assert(((lo0 >> 3) & 0x3F) < 64u32) by (bit_vector);
        }
        let lo_saved = ctx.lo;
        let hi_saved = ctx.hi;
        let pad_len: usize = if k < 56 {
            56 - k
        } else {
            120 - k
        };
        let mut pad: Vec<u8> = Vec::with_capacity(pad_len);
        pad.push(0x80);
        let mut i: usize = 1;
        while i < pad_len
            invariant
                1 <= i <= pad_len,
                pad@.len() == i,
            decreases pad_len - i,
        {
            pad.push(0);
            i = i + 1;
        }
        ctx.consume(pad.as_slice());
        let mut words = block_words_partial(&ctx.input, 14);
        words.push(lo_saved);
        words.push(hi_saved);
        let (a, b, c, d) = transform(ctx.a, ctx.b, ctx.c, ctx.d, &words);
        let digest: [u8; 16] = [
            (a & 0xFF) as u8,
            ((a >> 8) & 0xFF) as u8,
            ((a >> 16) & 0xFF) as u8,
            ((a >> 24) & 0xFF) as u8,
            (b & 0xFF) as u8,
            ((b >> 8) & 0xFF) as u8,
            ((b >> 16) & 0xFF) as u8,
            ((b >> 24) & 0xFF) as u8,
            (c & 0xFF) as u8,
            ((c >> 8) & 0xFF) as u8,
            ((c >> 16) & 0xFF) as u8,
            ((c >> 24) & 0xFF) as u8,
            (d & 0xFF) as u8,
            ((d >> 8) & 0xFF) as u8,
            ((d >> 16) & 0xFF) as u8,
            ((d >> 24) & 0xFF) as u8,
        ];
        Digest(digest)
    }
}

/// The first `count` little-endian words of a 64-byte block.
fn block_words_partial(input: &Vec<u8>, count: usize) -> (r: Vec<u32>)
    requires
        input@.len() == 64,
        count <= 16,
    ensures
        r@.len() == count,
{
    let mut words: Vec<u32> = Vec::with_capacity(count);
    let mut j: usize = 0;
    while j < count
        invariant
            0 <= j <= count,
            count <= 16,
            input@.len() == 64,
            words@.len() == j,
        decreases count - j,
    {
        let base = 4 * j;
        let w = (input[base] as u32) | ((input[base + 1] as u32) << 8u32) | ((input[base + 2]
            as u32) << 16u32) | ((input[base + 3] as u32) << 24u32);
        words.push(w);
        j = j + 1;
    }
    words
}

/// The digest of `data` in one call.
pub fn compute(data: &[u8]) -> (r: Digest) {
    let mut context = Context::new();
    context.consume(data);
    context.compute()
}

/// The lowercase hexadecimal form of a digest.
impl Digest {
    pub fn to_hex(&self) -> (r: String)
        ensures
            r@ == crate::hex::hex_chars_of(self.0@),
    {
        crate::hex::hex_encode(self.0.as_slice())
    }
}

} // verus!
