//! The pages of a CBT (tar-based comic book archive) held in memory.
//!
//! A tar archive is a run of 512-byte blocks: each member has a header block
//! (its name in bytes 0–99, its size as octal digits in bytes 124–135, its type
//! in byte 156 and, in the ustar format, a name prefix in bytes 345–499) followed
//! by its data, padded to whole blocks. An all-zero block, or the end of the
//! bytes, ends the archive.
use vstd::prelude::*;
use crate::archive::is_image_name;
use crate::text::owned;

verus! {

/// The size of a tar block.
pub const BLOCK: usize = 512;

/// The text of `bytes` as `String::from_utf8_lossy` decodes it (invalid sequences
/// become U+FFFD).
pub uninterp spec fn lossy_text(bytes: Seq<u8>) -> Seq<char>;

/// `String::from_utf8_lossy`: the text of `bytes`; valid UTF-8 decodes to the
/// characters it encodes.
#[verifier::external_body]
fn text_of_bytes(bytes: &[u8]) -> (s: String)
    ensures
        s@ == lossy_text(bytes@),
        vstd::utf8::valid_utf8(bytes@) ==> s@ == vstd::utf8::decode_utf8(bytes@),
{
    String::from_utf8_lossy(bytes).into_owned()
}

/// An ASCII octal digit.
pub open spec fn is_octal(b: u8) -> bool {
    48 <= b <= 55
}

/// Where the run of spaces of `f` starting at `i` ends.
pub open spec fn spaces_end(f: Seq<u8>, i: int) -> int
    decreases f.len() - i,
{
    if 0 <= i < f.len() && f[i] == 32 { spaces_end(f, i + 1) } else { i }
}

/// Where the run of octal digits of `f` starting at `i` ends.
pub open spec fn digits_end(f: Seq<u8>, i: int) -> int
    decreases f.len() - i,
{
    if 0 <= i < f.len() && is_octal(f[i]) { digits_end(f, i + 1) } else { i }
}

/// The value of the octal digits `f[i..j]`.
pub open spec fn octal_value(f: Seq<u8>, i: int, j: int) -> nat
    decreases j - i,
{
    if j <= i { 0 } else { octal_value(f, i, j - 1) * 8 + (f[j - 1] - 48) as nat }
}

/// A numeric header field: spaces, octal digits, then only NULs and spaces. Its
/// value, or `None` where the field holds anything else.
pub open spec fn field_number(f: Seq<u8>) -> Option<nat> {
    let a = spaces_end(f, 0);
    let e = digits_end(f, a);
    if forall|k: int| e <= k < f.len() ==> f[k] == 0 || f[k] == 32 {
        Some(octal_value(f, a, e))
    } else {
        None
    }
}

/// Where the NUL-terminated text of `s` starting at `i` ends.
pub open spec fn nul_end(s: Seq<u8>, i: int) -> int
    decreases s.len() - i,
{
    if 0 <= i < s.len() && s[i] != 0 { nul_end(s, i + 1) } else { i }
}

/// The text of a NUL-terminated field.
pub open spec fn field_text(s: Seq<u8>) -> Seq<u8> {
    s.take(nul_end(s, 0))
}

/// A ustar header: its magic field starts with `ustar`.
pub open spec fn is_ustar(h: Seq<u8>) -> bool {
    h.subrange(257, 262) == seq![117u8, 115u8, 116u8, 97u8, 114u8]
}

/// The member name of a header: the name field, behind the prefix field and a `/`
/// where a ustar header has a prefix.
pub open spec fn member_name(h: Seq<u8>) -> Seq<u8> {
    let name = field_text(h.subrange(0, 100));
    let prefix = field_text(h.subrange(345, 500));
    if is_ustar(h) && prefix.len() > 0 { prefix + seq![47u8] + name } else { name }
}

/// A regular file: type `0` or NUL.
pub open spec fn is_regular(h: Seq<u8>) -> bool {
    h[156] == 48 || h[156] == 0
}

/// The size rounded up to whole blocks.
pub open spec fn padded(size: nat) -> nat {
    if size % 512 == 0 { size } else { (size / 512 + 1) * 512 }
}

/// The pages of the tar archive `b` from the header at `off` on: the regular files
/// whose names look like images, with their bytes, in archive order; or `None`
/// where a header or its data does not fit in the bytes or a size cannot be read.
pub open spec fn cbt_pages_from(b: Seq<u8>, off: nat) -> Option<Seq<(Seq<char>, Seq<u8>)>>
    decreases b.len() - off,
{
    if off + 512 > b.len() {
        if off == b.len() { Some(Seq::empty()) } else { None }
    } else {
        let h = b.subrange(off as int, (off + 512) as int);
        if all_zero(h) {
            Some(Seq::empty())
        } else {
            match field_number(h.subrange(124, 136)) {
                None => None,
                Some(size) => {
                    let next = off + 512 + padded(size);
                    if off + 512 + size > b.len() || next > b.len() {
                        None
                    } else {
                        match cbt_pages_from(b, next) {
                            None => None,
                            Some(rest) => {
                                let name = lossy_text(member_name(h));
                                if is_regular(h) && is_image_name(name) {
                                    Some(seq![(name, b.subrange((off + 512) as int, (off + 512 + size) as int))] + rest)
                                } else {
                                    Some(rest)
                                }
                            },
                        }
                    }
                },
            }
        }
    }
}

/// The pages of a CBT held as `bytes`, or the error where they are not a tar
/// archive that can be read to its end.
pub open spec fn cbt_pages(bytes: Seq<u8>) -> Result<Seq<(Seq<char>, Seq<u8>)>, Seq<char>> {
    match cbt_pages_from(bytes, 0) {
        Some(pages) => Ok(pages),
        None => Err("Failed to read CBT archive"@),
    }
}

/// Every byte is zero.
pub open spec fn all_zero(h: Seq<u8>) -> bool {
    forall|k: int| 0 <= k < h.len() ==> h[k] == 0
}

/// Whether the block at `off` is all zeros.
fn zero_block(b: &Vec<u8>, off: usize) -> (r: bool)
    requires
        off + 512 <= b@.len(),
    ensures
        r == all_zero(b@.subrange(off as int, off + 512)),
{
    let blen = b.len();
    let mut i: usize = 0;
    while i < BLOCK
        invariant
            blen == b@.len(),
            off + 512 <= b@.len(),
            i <= 512,
            forall|k: int| 0 <= k < i ==> #[trigger] b@.subrange(off as int, off + 512)[k] == 0,
        decreases 512 - i,
    {
        if b[off + i] != 0 {
            assert(b@.subrange(off as int, off + 512)[i as int] != 0);
            return false;
        }
        i = i + 1;
    }
    true
}

/// The number in the header field `b[start..start + 12]` (see [`field_number`]).
fn read_number(b: &Vec<u8>, start: usize) -> (r: Option<u64>)
    requires
        start + 12 <= b@.len(),
    ensures
        match field_number(b@.subrange(start as int, start + 12)) {
            Some(v) => r is Some && r->0 == v,
            None => r is None,
        },
{
    let ghost f = b@.subrange(start as int, start + 12);
    let blen = b.len();
    let end = start + 12;
    let mut i = start;
    while i < end && b[i] == 32
        invariant
            start <= i <= end,
            end == start + 12,
            end <= b@.len(),
            f == b@.subrange(start as int, end as int),
            spaces_end(f, 0) == spaces_end(f, i - start),
        decreases end - i,
    {
        assert(f[i - start] == 32);
        i = i + 1;
    }
    let a = i;
    let mut v: u64 = 0;
    while i < end && 48 <= b[i] && b[i] <= 55
        invariant
            start <= a <= i <= end,
            end == start + 12,
            end <= b@.len(),
            f == b@.subrange(start as int, end as int),
            spaces_end(f, 0) == a - start,
            digits_end(f, a - start) == digits_end(f, i - start),
            v == octal_value(f, a - start, i - start),
            v < pow8(i - a),
            i - a <= 12,
        decreases end - i,
    {
        assert(f[i - start] == b@[i as int]);
        assert(is_octal(f[i - start]));
        proof {
            lemma_pow8_step(i - a);
            lemma_pow8_12();
        }
        v = v * 8 + (b[i] - 48) as u64;
        i = i + 1;
    }
    let e = i;
    assert(digits_end(f, a - start) == e - start) by {
        if e < end {
            assert(f[e - start] == b@[e as int]);
        }
    }
    let mut k = e;
    while k < end
        invariant
            start <= a <= e <= k <= end,
            end == start + 12,
            end <= b@.len(),
            f == b@.subrange(start as int, end as int),
            spaces_end(f, 0) == a - start,
            digits_end(f, a - start) == e - start,
            v == octal_value(f, a - start, e - start),
            forall|j: int| e - start <= j < k - start ==> f[j] == 0 || f[j] == 32,
        decreases end - k,
    {
        if b[k] != 0 && b[k] != 32 {
            assert(f[k - start] == b@[k as int]);
            return None;
        }
        k = k + 1;
    }
    Some(v)
}

/// Eight to the `n`.
pub open spec fn pow8(n: int) -> nat
    decreases n,
{
    if n <= 0 { 1 } else { 8 * pow8(n - 1) }
}

proof fn lemma_pow8_step(n: int)
    requires
        0 <= n < 12,
    ensures
        pow8(n + 1) == 8 * pow8(n),
        pow8(n + 1) <= pow8(12),
    decreases 12 - n,
{
    if n + 1 < 12 {
        lemma_pow8_step(n + 1);
    }
}

proof fn lemma_pow8_12()
    ensures
        pow8(12) == 68719476736,
{
    reveal_with_fuel(pow8, 13);
}

/// The NUL-terminated text of `b[start..start + len]`.
fn read_text(b: &Vec<u8>, start: usize, len: usize) -> (r: Vec<u8>)
    requires
        start + len <= b@.len(),
    ensures
        r@ == field_text(b@.subrange(start as int, start + len)),
{
    let ghost s = b@.subrange(start as int, start + len);
    let blen = b.len();
    let mut out: Vec<u8> = Vec::new();
    let mut i: usize = 0;
    while i < len && b[start + i] != 0
        invariant
            blen == b@.len(),
            start + len <= b@.len(),
            i <= len,
            s == b@.subrange(start as int, start + len),
            nul_end(s, 0) == nul_end(s, i as int),
            out@ == s.take(i as int),
        decreases len - i,
    {
        assert(s[i as int] == b@[start + i]);
        out.push(b[start + i]);
        i = i + 1;
        assert(out@ =~= s.take(i as int));
    }
    if i < len {
        assert(s[i as int] == b@[start + i]);
    }
    out
}

/// The member name of the header at `off` (see [`member_name`]).
fn read_member_name(b: &Vec<u8>, off: usize) -> (r: Vec<u8>)
    requires
        off + 512 <= b@.len(),
    ensures
        r@ == member_name(b@.subrange(off as int, off + 512)),
{
    let ghost h = b@.subrange(off as int, off + 512);
    let blen = b.len();
    let name = read_text(b, off, 100);
    let prefix = read_text(b, off + 345, 155);
    assert(b@.subrange(off as int, off + 100) =~= h.subrange(0, 100));
    assert(b@.subrange(off + 345, off + 345 + 155) =~= h.subrange(345, 500));
    let ustar = b[off + 257] == 117 && b[off + 258] == 115 && b[off + 259] == 116 && b[off + 260] == 97
        && b[off + 261] == 114;
    assert(ustar == is_ustar(h)) by {
        if ustar {
            assert(h.subrange(257, 262) =~= seq![117u8, 115u8, 116u8, 97u8, 114u8]);
        } else if is_ustar(h) {
            assert(h.subrange(257, 262)[0] == b@[off + 257]);
            assert(h.subrange(257, 262)[1] == b@[off + 258]);
            assert(h.subrange(257, 262)[2] == b@[off + 259]);
            assert(h.subrange(257, 262)[3] == b@[off + 260]);
            assert(h.subrange(257, 262)[4] == b@[off + 261]);
        }
    }
    if ustar && prefix.len() > 0 {
        let mut full = prefix;
        full.push(47);
        let mut i: usize = 0;
        let ghost base = full@;
        while i < name.len()
            invariant
                i <= name@.len(),
                full@ == base + name@.take(i as int),
            decreases name@.len() - i,
        {
            full.push(name[i]);
            i = i + 1;
            assert(full@ =~= base + name@.take(i as int));
        }
        assert(name@.take(name@.len() as int) =~= name@);
        full
    } else {
        name
    }
}

/// Extract the page entries of a CBT (a tar archive) held in memory: the regular
/// files whose names look like images, in archive order, with their bytes.
pub fn extract_cbt(bytes: Vec<u8>) -> (r: Result<Vec<(String, Vec<u8>)>, String>)
    ensures
        match cbt_pages(bytes@) {
            Ok(pages) => r is Ok && Seq::new(r->Ok_0@.len(), |k: int| (r->Ok_0@[k].0@, r->Ok_0@[k].1@)) == pages,
            Err(e) => r is Err && r->Err_0@ == e,
        },
{
    let ghost b = bytes@;
    let n = bytes.len();
    let mut entries: Vec<(String, Vec<u8>)> = Vec::new();
    let mut off: usize = 0;
    loop
        invariant
            b == bytes@,
            n == b.len(),
            off <= n,
            cbt_pages_from(b, 0) == match cbt_pages_from(b, off as nat) {
                Some(rest) => Some(Seq::new(entries@.len(), |k: int| (entries@[k].0@, entries@[k].1@)) + rest),
                None => None,
            },
        decreases n - off,
    {
        let ghost acc = Seq::new(entries@.len(), |k: int| (entries@[k].0@, entries@[k].1@));
        if n - off < BLOCK {
            if off == n {
                assert(acc + Seq::<(Seq<char>, Seq<u8>)>::empty() =~= acc);
                return Ok(entries);
            }
            return Err(owned("Failed to read CBT archive"));
        }
        if zero_block(&bytes, off) {
            assert(acc + Seq::<(Seq<char>, Seq<u8>)>::empty() =~= acc);
            return Ok(entries);
        }
        let ghost h = b.subrange(off as int, off + 512);
        assert(b.subrange(off + 124, off + 136) =~= h.subrange(124, 136));
        let size = match read_number(&bytes, off + 124) {
            Some(s) => s,
            None => return Err(owned("Failed to read CBT archive")),
        };
        if size > (n - off - BLOCK) as u64 {
            return Err(owned("Failed to read CBT archive"));
        }
        let size = size as usize;
        let rem = size % BLOCK;
        let pad = if rem == 0 { size } else { size - rem + BLOCK };
        assert(pad == padded(size as nat)) by (nonlinear_arith)
            requires
                rem == size % 512,
                pad == if rem == 0 { size as int } else { size - rem + 512 },
        {
        }
        if pad > n - off - BLOCK {
            return Err(owned("Failed to read CBT archive"));
        }
        let data_start = off + BLOCK;
        let name_bytes = read_member_name(&bytes, off);
        let name = text_of_bytes(name_bytes.as_slice());
        let kind = bytes[off + 156];
        assert(kind == h[156]);
        let ghost next = (off + 512 + pad) as nat;
        assert(!all_zero(h));
        assert(field_number(h.subrange(124, 136)) == Some(size as nat));
        assert(padded(size as nat) == pad);
        assert(!(off + 512 + size > b.len() || next > b.len()));
        assert(cbt_pages_from(b, off as nat) == match cbt_pages_from(b, next) {
            None => None,
            Some(rest) => if is_regular(h) && is_image_name(name@) {
                Some(seq![(name@, b.subrange(off + 512, off + 512 + size))] + rest)
            } else {
                Some(rest)
            },
        });
        if (kind == 48 || kind == 0) && crate::archive::is_image_filename(name.as_str()) {
            let mut data: Vec<u8> = Vec::new();
            let mut i: usize = 0;
            while i < size
                invariant
                    n == bytes@.len(),
                    data_start + size <= bytes@.len(),
                    i <= size,
                    data@ == bytes@.subrange(data_start as int, data_start + i),
                decreases size - i,
            {
                data.push(bytes[data_start + i]);
                i = i + 1;
                assert(data@ =~= bytes@.subrange(data_start as int, data_start + i));
            }
            let ghost item = (name@, data@);
            entries.push((name, data));
            proof {
                let acc2 = Seq::new(entries@.len(), |k: int| (entries@[k].0@, entries@[k].1@));
                assert(acc2 =~= acc.push(item));
                match cbt_pages_from(b, (off + 512 + pad) as nat) {
                    Some(rest) => {
                        assert(acc + (seq![item] + rest) =~= acc2 + rest);
                    },
                    None => {},
                }
            }
        }
        off = off + BLOCK + pad;
    }
}

} // verus!
