//! The streamed archive format: 512-byte headers, octal fields, data
//! rounded up to whole blocks, and two zero blocks at the end.

use vstd::prelude::*;
use vstd::string::StrSliceExecFns;
use vstd::utf8::{valid_utf8, decode_utf8, encode_utf8};
use crate::bridge::bytes_to_string;
use crate::wire::push_bytes;

verus! {

pub const BLOCK: usize = 512;

/// The regular-file type flag.
pub const FLAG_FILE: u8 = 0x30;

/// The directory type flag.
pub const FLAG_DIR: u8 = 0x35;

/// One archive entry: a name, a type flag, and its bytes (empty for
/// directories).
pub struct TarEntry {
    pub name: String,
    pub typeflag: u8,
    pub data: Vec<u8>,
}

pub struct TarEntryView {
    pub name: Seq<char>,
    pub typeflag: u8,
    pub data: Seq<u8>,
}

impl View for TarEntry {
    type V = TarEntryView;

    open spec fn view(&self) -> TarEntryView {
        TarEntryView { name: self.name@, typeflag: self.typeflag, data: self.data@ }
    }
}

pub open spec fn pow8(k: nat) -> nat
    decreases k,
{
    if k == 0 {
        1
    } else {
        8 * pow8((k - 1) as nat)
    }
}

/// `n` in octal, `w` digits wide, leading zeros, as ASCII bytes.
pub open spec fn oct_digits(n: nat, w: nat) -> Seq<u8> {
    Seq::new(w, |i: int| (0x30 + (n / pow8((w - 1 - i) as nat)) % 8) as u8)
}

/// The value of an octal digit string.
pub open spec fn oct_val(s: Seq<u8>) -> nat
    decreases s.len(),
{
    if s.len() == 0 {
        0
    } else {
        oct_val(s.drop_last()) * 8 + (if 0x30 <= s.last() <= 0x37 {
            (s.last() - 0x30) as nat
        } else {
            0
        })
    }
}

pub open spec fn all_octal(s: Seq<u8>) -> bool {
    forall|i: int| 0 <= i < s.len() ==> 0x30 <= #[trigger] s[i] <= 0x37
}

pub proof fn lemma_oct_round_trip(n: nat, w: nat)
    requires
        n < pow8(w),
    ensures
        oct_val(oct_digits(n, w)) == n,
        all_octal(oct_digits(n, w)),
    decreases w,
{
    if w == 0 {
        assert(oct_digits(n, 0) =~= Seq::<u8>::empty());
    } else {
        let s = oct_digits(n, w);
        assert(n / 8 < pow8((w - 1) as nat)) by (nonlinear_arith)
            requires
                n < pow8(w),
                pow8(w) == 8 * pow8((w - 1) as nat),
        ;
        lemma_oct_round_trip(n / 8, (w - 1) as nat);
        assert(s.drop_last() =~= oct_digits(n / 8, (w - 1) as nat)) by {
            assert forall|i: int| 0 <= i < w - 1 implies s.drop_last()[i] == oct_digits(
                n / 8,
                (w - 1) as nat,
            )[i] by {
                assert((n / 8) / pow8((w - 2 - i) as nat) == n / pow8((w - 1 - i) as nat)) by {
                    lemma_pow8_div(n, (w - 2 - i) as nat);
                }
            }
        }
        assert(pow8(0) == 1);
        assert(n / 1 == n);
        assert(s.last() == s[w as int - 1]);
        assert(s.last() == (0x30 + n % 8) as u8);
        assert(oct_val(s) == (n / 8) * 8 + n % 8);
        assert((n / 8) * 8 + n % 8 == n) by (nonlinear_arith);
    }
}

pub proof fn lemma_pow8_pos(k: nat)
    ensures
        pow8(k) >= 1,
    decreases k,
{
    if k > 0 {
        lemma_pow8_pos((k - 1) as nat);
    }
}

pub proof fn lemma_pow8_div(n: nat, k: nat)
    ensures
        (n / 8) / pow8(k) == n / pow8((k + 1) as nat),
{
    lemma_pow8_pos(k);
    assert(pow8((k + 1) as nat) == 8 * pow8(k));
    vstd::arithmetic::div_mod::lemma_div_denominator(n as int, 8, pow8(k) as int);
}

pub open spec fn zeros(n: nat) -> Seq<u8> {
    Seq::new(n, |i: int| 0u8)
}

/// Padding that rounds `n` up to a whole number of blocks.
pub open spec fn pad_len(n: nat) -> nat {
    (((512 - n % 512) % 512) as nat)
}

/// The 100-byte name field: UTF-8 bytes, zero filled.
pub open spec fn name_field(name: Seq<char>) -> Seq<u8> {
    encode_utf8(name) + zeros((100 - encode_utf8(name).len()) as nat)
}

/// An eight-byte field holding a zero octal value.
pub open spec fn zero_oct_field() -> Seq<u8> {
    oct_digits(0, 7) + seq![0u8]
}

/// The twelve-byte size field: eleven octal digits and a terminator.
pub open spec fn size_field(n: nat) -> Seq<u8> {
    oct_digits(n, 11) + seq![0u8]
}

pub open spec fn mtime_field() -> Seq<u8> {
    oct_digits(0, 11) + seq![0u8]
}

/// "ustar\0" followed by version "00".
pub open spec fn magic_field() -> Seq<u8> {
    seq![0x75u8, 0x73u8, 0x74u8, 0x61u8, 0x72u8, 0u8, 0x30u8, 0x30u8]
}

/// The header with the checksum field still holding spaces.
pub open spec fn header_pre(name: Seq<char>, typeflag: u8, size: nat) -> Seq<u8> {
    name_field(name) + zero_oct_field() + zero_oct_field() + zero_oct_field() + size_field(size)
        + mtime_field() + seq![0x20u8, 0x20u8, 0x20u8, 0x20u8, 0x20u8, 0x20u8, 0x20u8, 0x20u8]
        + seq![typeflag] + zeros(100) + magic_field() + zeros(247)
}

pub open spec fn byte_sum(s: Seq<u8>) -> nat
    decreases s.len(),
{
    if s.len() == 0 {
        0
    } else {
        (byte_sum(s.drop_last()) + s.last()) as nat
    }
}

/// The six-digit checksum field: the byte sum of the header computed
/// with the checksum bytes as spaces.
pub open spec fn chksum_field(sum: nat) -> Seq<u8> {
    oct_digits(sum, 6) + seq![0u8, 0x20u8]
}

/// A complete 512-byte header.
pub open spec fn header_bytes(name: Seq<char>, typeflag: u8, size: nat) -> Seq<u8> {
    let pre = header_pre(name, typeflag, size);
    pre.take(148) + chksum_field(byte_sum(pre) % pow8(6)) + pre.skip(156)
}

/// A name fits when its UTF-8 form is 1 to 100 bytes with no zero byte.
pub open spec fn valid_tar_name(name: Seq<char>) -> bool {
    &&& 1 <= encode_utf8(name).len() <= 100
    &&& forall|i: int| 0 <= i < encode_utf8(name).len() ==> encode_utf8(name)[i] != 0
}

pub open spec fn valid_tar_entry(e: TarEntryView) -> bool {
    &&& valid_tar_name(e.name)
    &&& e.data.len() < pow8(11)
}

/// One encoded entry: header, data, padding to a block boundary.
pub open spec fn enc_entry(e: TarEntryView) -> Seq<u8> {
    header_bytes(e.name, e.typeflag, e.data.len()) + e.data + zeros(pad_len(e.data.len()))
}

/// A whole archive: the entries in order, then two zero blocks.
pub open spec fn enc_archive_entries(es: Seq<TarEntryView>) -> Seq<u8>
    decreases es.len(),
{
    if es.len() == 0 {
        Seq::empty()
    } else {
        enc_archive_entries(es.drop_last()) + enc_entry(es.last())
    }
}

pub open spec fn enc_archive(es: Seq<TarEntryView>) -> Seq<u8> {
    enc_archive_entries(es) + zeros(1024)
}

// ---------------------------------------------------------------------
// Reading an archive back.
// ---------------------------------------------------------------------

/// Index of the first zero byte, or the length when there is none.
pub open spec fn first_nul(s: Seq<u8>) -> int
    decreases s.len(),
{
    if s.len() == 0 {
        0
    } else if s[0] == 0 {
        0
    } else {
        1 + first_nul(s.drop_first())
    }
}

pub proof fn lemma_first_nul_at(b: Seq<u8>, z: Seq<u8>)
    requires
        forall|i: int| 0 <= i < b.len() ==> b[i] != 0,
        z.len() == 0 || z[0] == 0,
    ensures
        first_nul(b + z) == b.len(),
    decreases b.len(),
{
    let s = b + z;
    if b.len() == 0 {
        assert(s =~= z);
        if z.len() > 0 {
            assert(s[0] == 0);
        }
    } else {
        assert(s[0] == b[0]);
        assert(s.drop_first() =~= b.drop_first() + z);
        assert(forall|i: int|
            0 <= i < b.drop_first().len() ==> b.drop_first()[i] == b[i + 1]);
        lemma_first_nul_at(b.drop_first(), z);
    }
}

/// Decode one entry from the front of `s`: the entry and the bytes
/// consumed (header, data, padding).
pub open spec fn dec_entry(s: Seq<u8>) -> Option<(TarEntryView, nat)> {
    if s.len() < 512 {
        None
    } else {
        let h = s.take(512);
        let nb = first_nul(h.take(100));
        let name_bytes = h.take(100).take(nb);
        let size_digits = h.subrange(124, 135);
        if nb == 0 || !valid_utf8(name_bytes) || !all_octal(size_digits) {
            None
        } else {
            let size = oct_val(size_digits);
            let total = 512 + size + pad_len(size);
            if s.len() < total {
                None
            } else {
                Some(
                    (
                        TarEntryView {
                            name: decode_utf8(name_bytes),
                            typeflag: h[156],
                            data: s.subrange(512, 512 + size as int),
                        },
                        total,
                    ),
                )
            }
        }
    }
}

pub open spec fn is_zero_block(s: Seq<u8>) -> bool {
    s.len() >= 512 && forall|i: int| 0 <= i < 512 ==> s[i] == 0
}

/// Decode a whole archive: entries up to the first zero block.
pub open spec fn dec_archive(s: Seq<u8>) -> Option<Seq<TarEntryView>>
    decreases s.len(),
{
    if s.len() < 512 {
        None
    } else if is_zero_block(s) {
        Some(Seq::empty())
    } else {
        match dec_entry(s) {
            None => None,
            Some(p) => if p.1 < 512 || p.1 > s.len() {
                None
            } else {
                match dec_archive(s.skip(p.1 as int)) {
                    None => None,
                    Some(rest) => Some(seq![p.0] + rest),
                }
            },
        }
    }
}

/// Where each field of a header sits.
pub proof fn lemma_header_layout(name: Seq<char>, typeflag: u8, size: nat)
    requires
        valid_tar_name(name),
    ensures
        header_bytes(name, typeflag, size).len() == 512,
        header_bytes(name, typeflag, size).take(100) == name_field(name),
        header_bytes(name, typeflag, size).subrange(124, 135) == oct_digits(size, 11),
        header_bytes(name, typeflag, size)[156] == typeflag,
{
    let pre = header_pre(name, typeflag, size);
    assert(pre.len() == 512);
    let h = header_bytes(name, typeflag, size);
    assert(h.len() == 512);
    assert(h.take(100) =~= name_field(name));
    assert(h.subrange(124, 135) =~= oct_digits(size, 11));
    assert(h[156] == pre[156]);
    assert(pre[156] == typeflag);
}

/// An encoded entry reads back as itself, whatever follows it, and
/// consumes exactly its own bytes.
#[verifier::rlimit(100)]
#[verifier::spinoff_prover]
pub proof fn lemma_entry_round_trip(e: TarEntryView, rest: Seq<u8>)
    requires
        valid_tar_entry(e),
    ensures
        dec_entry(enc_entry(e) + rest) == Some((e, enc_entry(e).len())),
{
    let s = enc_entry(e) + rest;
    let hb = header_bytes(e.name, e.typeflag, e.data.len());
    lemma_header_layout(e.name, e.typeflag, e.data.len());
    assert(enc_entry(e).len() == 512 + e.data.len() + pad_len(e.data.len()));
    assert(s.len() >= 512);
    let h = s.take(512);
    assert(h =~= hb);
    assert(h.take(100) =~= name_field(e.name));
    let nbytes = encode_utf8(e.name);
    assert(first_nul(h.take(100)) == nbytes.len()) by {
        lemma_first_nul_at(nbytes, zeros((100 - nbytes.len()) as nat));
        assert(h.take(100) == nbytes + zeros((100 - nbytes.len()) as nat));
        if nbytes.len() < 100 {
            assert(zeros((100 - nbytes.len()) as nat)[0] == 0);
        }
    }
    assert(h.take(100).take(nbytes.len() as int) =~= nbytes);
    vstd::utf8::encode_utf8_valid_utf8(e.name);
    vstd::utf8::encode_utf8_decode_utf8(e.name);
    lemma_oct_round_trip(e.data.len(), 11);
    assert(h.subrange(124, 135) == oct_digits(e.data.len(), 11));
    assert(oct_val(h.subrange(124, 135)) == e.data.len());
    assert(s.len() >= 512 + e.data.len() + pad_len(e.data.len()));
    assert(s.subrange(512, 512 + e.data.len() as int) =~= e.data);
    assert(h[156] == e.typeflag);
    assert(dec_entry(s) == Some(
        (
            TarEntryView { name: e.name, typeflag: e.typeflag, data: e.data },
            512 + e.data.len() + pad_len(e.data.len()),
        ),
    ));
    assert(TarEntryView { name: e.name, typeflag: e.typeflag, data: e.data } == e);
}

pub open spec fn all_valid_entries(es: Seq<TarEntryView>) -> bool {
    forall|i: int| 0 <= i < es.len() ==> valid_tar_entry(#[trigger] es[i])
}

pub proof fn lemma_enc_entries_front(es: Seq<TarEntryView>)
    requires
        es.len() > 0,
    ensures
        enc_archive_entries(es) == enc_entry(es[0]) + enc_archive_entries(es.drop_first()),
    decreases es.len(),
{
    if es.len() == 1 {
        assert(es.drop_last() =~= Seq::empty());
        assert(es.drop_first() =~= Seq::empty());
        assert(es.last() == es[0]);
        assert(enc_archive_entries(es) =~= enc_entry(es[0]) + enc_archive_entries(
            es.drop_first(),
        ));
    } else {
        lemma_enc_entries_front(es.drop_last());
        assert(es.drop_last()[0] == es[0]);
        assert(es.drop_last().drop_first() =~= es.drop_first().drop_last());
        assert(es.drop_first().last() == es.last());
        assert(enc_archive_entries(es) == enc_archive_entries(es.drop_last()) + enc_entry(
            es.last(),
        ));
        assert(enc_archive_entries(es.drop_first()) == enc_archive_entries(
            es.drop_first().drop_last(),
        ) + enc_entry(es.last()));
        assert(enc_archive_entries(es) =~= enc_entry(es[0]) + enc_archive_entries(
            es.drop_first(),
        ));
    }
}

/// A whole encoded archive reads back as exactly its entries: sizes,
/// names, and bytes all survive the round trip.
pub proof fn lemma_archive_round_trip(es: Seq<TarEntryView>)
    requires
        all_valid_entries(es),
    ensures
        dec_archive(enc_archive(es)) == Some(es),
    decreases es.len(),
{
    let s = enc_archive(es);
    if es.len() == 0 {
        assert(s =~= zeros(1024));
        assert(is_zero_block(s));
    } else {
        lemma_enc_entries_front(es);
        let e0 = es[0];
        let tail = enc_archive_entries(es.drop_first()) + zeros(1024);
        assert(s =~= enc_entry(e0) + tail);
        lemma_entry_round_trip(e0, tail);
        let used = enc_entry(e0).len();
        assert(used >= 512);
        // the first block is a header with a nonzero first byte
        assert(!is_zero_block(s)) by {
            lemma_header_layout(e0.name, e0.typeflag, e0.data.len());
            assert(s[0] == header_bytes(e0.name, e0.typeflag, e0.data.len())[0]);
            assert(header_bytes(e0.name, e0.typeflag, e0.data.len()).take(100) == name_field(
                e0.name,
            ));
            assert(name_field(e0.name)[0] == encode_utf8(e0.name)[0]);
            assert(header_bytes(e0.name, e0.typeflag, e0.data.len())[0] == header_bytes(
                e0.name,
                e0.typeflag,
                e0.data.len(),
            ).take(100)[0]);
        }
        assert(s.skip(used as int) =~= enc_archive(es.drop_first()));
        assert(forall|i: int|
            0 <= i < es.drop_first().len() ==> valid_tar_entry(#[trigger] es.drop_first()[i]));
        lemma_archive_round_trip(es.drop_first());
        assert(seq![e0] + es.drop_first() =~= es);
    }
}

// ---------------------------------------------------------------------
// Writing.
// ---------------------------------------------------------------------

/// Eight to the `k`.
pub fn pow8e(k: u32) -> (r: u64)
    requires
        k <= 20,
    ensures
        r == pow8(k as nat),
{
    let mut r: u64 = 1;
    let mut i: u32 = 0;
    while i < k
        invariant
            i <= k <= 20,
            r == pow8(i as nat),
        decreases k - i,
    {
        proof {
            lemma_pow8_mono(i as nat + 1, 20);
            reveal_with_fuel(pow8, 21);
            assert(pow8(20) < u64::MAX);
        }
        r = r * 8;
        i = i + 1;
    }
    r
}

pub proof fn lemma_pow8_mono(a: nat, b: nat)
    requires
        a <= b,
    ensures
        pow8(a) <= pow8(b),
    decreases b,
{
    if a < b {
        lemma_pow8_mono(a, (b - 1) as nat);
        lemma_pow8_pos((b - 1) as nat);
    }
}

/// Append `n` zero bytes.
pub fn push_zeros(out: &mut Vec<u8>, n: usize)
    ensures
        final(out)@ == old(out)@ + zeros(n as nat),
{
    let ghost init = out@;
    let mut i: usize = 0;
    while i < n
        invariant
            i <= n,
            out@ == init + zeros(i as nat),
        decreases n - i,
    {
        out.push(0u8);
        proof {
            assert(init + zeros(i as nat) + seq![0u8] =~= init + zeros(i as nat + 1));
        }
        i = i + 1;
    }
}

/// Append `n` as `w` octal digits.
pub fn write_oct(out: &mut Vec<u8>, n: u64, w: u32)
    requires
        w <= 20,
        n < pow8(w as nat),
    ensures
        final(out)@ == old(out)@ + oct_digits(n as nat, w as nat),
{
    let ghost init = out@;
    let mut i: u32 = 0;
    while i < w
        invariant
            i <= w <= 20,
            n < pow8(w as nat),
            out@ == init + oct_digits(n as nat, w as nat).take(i as int),
        decreases w - i,
    {
        proof {
            lemma_pow8_pos((w - 1 - i) as nat);
        }
        let p = pow8e(w - 1 - i);
        let d: u8 = 0x30 + ((n / p) % 8) as u8;
        out.push(d);
        proof {
            let full = oct_digits(n as nat, w as nat);
            assert(full[i as int] == d);
            assert(init + full.take(i as int) + seq![d] =~= init + full.take(i as int + 1));
        }
        i = i + 1;
    }
    proof {
        assert(oct_digits(n as nat, w as nat).take(w as int) =~= oct_digits(
            n as nat,
            w as nat,
        ));
    }
}

/// Sum the bytes of `h`.
fn sum_bytes(h: &Vec<u8>) -> (r: u64)
    requires
        h@.len() <= 100000,
    ensures
        r == byte_sum(h@),
{
    let mut i: usize = 0;
    let mut sum: u64 = 0;
    while i < h.len()
        invariant
            i <= h@.len() <= 100000,
            sum == byte_sum(h@.take(i as int)),
            sum <= 255 * i,
        decreases h@.len() - i,
    {
        proof {
            assert(h@.take(i as int + 1).drop_last() =~= h@.take(i as int));
        }
        sum = sum + h[i] as u64;
        i = i + 1;
    }
    proof {
        assert(h@.take(h@.len() as int) =~= h@);
    }
    sum
}

/// Append one encoded entry.  Refuses exactly the entries the format
/// cannot carry: a name of 0 or more than 100 UTF-8 bytes, a name with
/// a zero byte, or data of a whole block-count's limit or more.
pub fn append_tar_entry(out: &mut Vec<u8>, e: &TarEntry) -> (ok: bool)
    ensures
        ok == valid_tar_entry(e@),
        ok ==> final(out)@ == old(out)@ + enc_entry(e@),
        !ok ==> final(out)@ == old(out)@,
{
    let nb = e.name.as_str().as_bytes_vec();
    if nb.len() == 0 || nb.len() > 100 {
        return false;
    }
    let mut j: usize = 0;
    while j < nb.len()
        invariant
            j <= nb@.len(),
            nb@ == encode_utf8(e.name@),
            forall|i: int| 0 <= i < j ==> nb@[i] != 0,
        decreases nb@.len() - j,
    {
        if nb[j] == 0 {
            return false;
        }
        j = j + 1;
    }
    let size_limit = pow8e(11);
    if e.data.len() as u64 >= size_limit {
        return false;
    }
    let size: u64 = e.data.len() as u64;
    // header with the checksum field as spaces
    let mut h: Vec<u8> = Vec::new();
    push_bytes(&mut h, &nb);
    push_zeros(&mut h, 100 - nb.len());
    proof {
        lemma_pow8_pos(7);
    }
    write_oct(&mut h, 0, 7);
    h.push(0u8);
    write_oct(&mut h, 0, 7);
    h.push(0u8);
    write_oct(&mut h, 0, 7);
    h.push(0u8);
    write_oct(&mut h, size, 11);
    h.push(0u8);
    write_oct(&mut h, 0, 11);
    h.push(0u8);
    h.push(0x20u8);
    h.push(0x20u8);
    h.push(0x20u8);
    h.push(0x20u8);
    h.push(0x20u8);
    h.push(0x20u8);
    h.push(0x20u8);
    h.push(0x20u8);
    h.push(e.typeflag);
    push_zeros(&mut h, 100);
    h.push(0x75u8);
    h.push(0x73u8);
    h.push(0x74u8);
    h.push(0x61u8);
    h.push(0x72u8);
    h.push(0u8);
    h.push(0x30u8);
    h.push(0x30u8);
    push_zeros(&mut h, 247);
    let ghost pre = header_pre(e.name@, e.typeflag, size as nat);
    proof {
        assert(h@ =~= pre);
        assert(pre.len() == 512);
        lemma_pow8_pos(6);
    }
    let sum = sum_bytes(&h);
    let s6: u64 = sum % pow8e(6);
    // assemble: bytes before the checksum, the checksum, the rest
    let head = crate::wire::copy_range(&h, 0, 148);
    push_bytes(out, &head);
    write_oct(out, s6, 6);
    out.push(0u8);
    out.push(0x20u8);
    let tail = crate::wire::copy_range(&h, 156, 512);
    push_bytes(out, &tail);
    push_bytes(out, &e.data);
    let pad = (512 - (e.data.len() % 512)) % 512;
    push_zeros(out, pad);
    proof {
        assert(out@ =~= old(out)@ + enc_entry(e@));
    }
    true
}

/// Encode a whole archive: every entry in order, then the end marker.
/// `None` exactly when some entry cannot be carried.
pub fn encode_archive_bytes(entries: &Vec<TarEntry>) -> (r: Option<Vec<u8>>)
    ensures
        match r {
            Some(out) => {
                &&& out@ == enc_archive(entry_view_seq(entries@))
                &&& all_valid_entries(entry_view_seq(entries@))
            },
            None => !all_valid_entries(entry_view_seq(entries@)),
        },
{
    let ghost evs = entry_view_seq(entries@);
    let mut out: Vec<u8> = Vec::new();
    let mut i: usize = 0;
    proof {
        assert(evs.take(0) =~= Seq::<TarEntryView>::empty());
        assert(out@ =~= enc_archive_entries(evs.take(0)));
    }
    while i < entries.len()
        invariant
            i <= entries@.len(),
            evs == entry_view_seq(entries@),
            out@ == enc_archive_entries(evs.take(i as int)),
            forall|j: int| 0 <= j < i ==> valid_tar_entry(#[trigger] evs[j]),
        decreases entries@.len() - i,
    {
        let ok = append_tar_entry(&mut out, &entries[i]);
        if !ok {
            proof {
                assert(evs[i as int] == entries@[i as int]@);
                assert(!valid_tar_entry(evs[i as int]));
            }
            return None;
        }
        proof {
            assert(evs.take(i as int + 1).drop_last() =~= evs.take(i as int));
            assert(evs.take(i as int + 1).last() == evs[i as int]);
            assert(out@ =~= enc_archive_entries(evs.take(i as int + 1)));
        }
        i = i + 1;
    }
    finish_archive(&mut out);
    proof {
        assert(evs.take(evs.len() as int) =~= evs);
        assert(out@ =~= enc_archive(evs));
    }
    Some(out)
}

/// Append the two zero blocks that end an archive.
pub fn finish_archive(out: &mut Vec<u8>)
    ensures
        final(out)@ == old(out)@ + zeros(1024),
{
    push_zeros(out, 1024);
}

// ---------------------------------------------------------------------
// Parsing.
// ---------------------------------------------------------------------

pub proof fn lemma_first_nul_char(t: Seq<u8>, k: int)
    requires
        0 <= k <= t.len(),
        forall|i: int| 0 <= i < k ==> t[i] != 0,
        k == t.len() || t[k] == 0,
    ensures
        first_nul(t) == k,
    decreases t.len(),
{
    if t.len() > 0 && k > 0 {
        assert(t[0] != 0);
        assert(forall|i: int|
            0 <= i < t.drop_first().len() ==> t.drop_first()[i] == t[i + 1]);
        lemma_first_nul_char(t.drop_first(), k - 1);
    }
}

/// Decode one entry at `off`, exactly as `dec_entry` reads it.
#[verifier::rlimit(100)]
#[verifier::spinoff_prover]
pub fn parse_tar_entry(bytes: &Vec<u8>, off: usize) -> (r: Option<(TarEntry, usize)>)
    requires
        off <= bytes.len(),
    ensures
        match r {
            Some(p) => {
                &&& dec_entry(bytes@.skip(off as int)) == Some((p.0@, (p.1 - off) as nat))
                &&& off < p.1 <= bytes.len()
                &&& p.1 - off >= 512
            },
            None => dec_entry(bytes@.skip(off as int)) is None,
        },
{
    let ghost s = bytes@.skip(off as int);
    if bytes.len() - off < 512 {
        return None;
    }
    let ghost h = s.take(512);
    proof {
        assert(forall|i: int| 0 <= i < 512 ==> h[i] == bytes@[off + i]);
        assert(forall|i: int| 0 <= i < 100 ==> h.take(100)[i] == bytes@[off + i]);
    }
    // find the end of the name
    let mut nb: usize = 100;
    let mut j: usize = 0;
    loop
        invariant_except_break
            j <= 100,
            off + 512 <= bytes.len(),
            nb == 100,
            h == bytes@.skip(off as int).take(512),
            forall|i: int| 0 <= i < 100 ==> #[trigger] h.take(100)[i] == bytes@[off + i],
            forall|i: int| 0 <= i < j ==> #[trigger] h.take(100)[i] != 0,
        ensures
            first_nul(h.take(100)) == nb,
            nb <= 100,
        decreases 100 - j,
    {
        if j >= 100 {
            proof {
                lemma_first_nul_char(h.take(100), 100);
            }
            break;
        }
        if bytes[off + j] == 0 {
            proof {
                assert(h.take(100)[j as int] == 0);
                lemma_first_nul_char(h.take(100), j as int);
            }
            nb = j;
            break;
        }
        j = j + 1;
    }
    if nb == 0 {
        return None;
    }
    let name_bytes = crate::wire::copy_range(bytes, off, off + nb);
    proof {
        assert(name_bytes@ =~= h.take(100).take(nb as int));
    }
    let ghost nbv = name_bytes@;
    let name = match bytes_to_string(name_bytes) {
        None => {
            return None;
        },
        Some(n) => n,
    };
    // the size field: eleven octal digits
    let mut size: u64 = 0;
    let mut i: usize = 0;
    proof {
        assert(forall|i: int|
            0 <= i < 11 ==> h.subrange(124, 135)[i] == bytes@[off + 124 + i]);
        assert(h.subrange(124, 135).subrange(0, 0) =~= Seq::<u8>::empty());
    }
    while i < 11
        invariant
            i <= 11,
            off + 512 <= bytes.len(),
            h == bytes@.skip(off as int).take(512),
            s == bytes@.skip(off as int),
            forall|k: int| 0 <= k < 11 ==> h.subrange(124, 135)[k] == bytes@[off + 124 + k],
            forall|k: int|
                0 <= k < i ==> 0x30 <= #[trigger] h.subrange(124, 135)[k] <= 0x37,
            size == oct_val(h.subrange(124, 135).subrange(0, i as int)),
            size < pow8(i as nat),
        decreases 11 - i,
    {
        let b = bytes[off + 124 + i];
        if b < 0x30 || b > 0x37 {
            proof {
                assert(h.subrange(124, 135)[i as int] == b);
                assert(!all_octal(h.subrange(124, 135)));
            }
            return None;
        }
        proof {
            let d11 = h.subrange(124, 135);
            assert(d11.subrange(0, i as int + 1).drop_last() =~= d11.subrange(0, i as int));
            assert(d11.subrange(0, i as int + 1).last() == d11[i as int]);
            assert(pow8(i as nat + 1) == 8 * pow8(i as nat));
            assert(size * 8 + (b - 0x30) < pow8(i as nat + 1)) by (nonlinear_arith)
                requires
                    size < pow8(i as nat),
                    pow8(i as nat + 1) == 8 * pow8(i as nat),
                    0x30 <= b <= 0x37,
            ;
            reveal_with_fuel(pow8, 12);
            lemma_pow8_mono(i as nat + 1, 11);
            assert(pow8(11) < u64::MAX);
        }
        size = size * 8 + (b - 0x30) as u64;
        i = i + 1;
    }
    proof {
        assert(h.subrange(124, 135).subrange(0, 11) =~= h.subrange(124, 135));
        assert(all_octal(h.subrange(124, 135)));
        assert(size == oct_val(h.subrange(124, 135)));
    }
    proof {
        reveal_with_fuel(pow8, 12);
    }
    let pad: u64 = (512 - (size % 512)) % 512;
    let total: u64 = 512 + size + pad;
    if total > (bytes.len() - off) as u64 {
        proof {
            assert(s.len() < 512 + size + pad_len(size as nat));
        }
        return None;
    }
    let data = crate::wire::copy_range(bytes, off + 512, off + 512 + (size as usize));
    proof {
        assert(data@ =~= s.subrange(512, 512 + size as int));
    }
    let flag = bytes[off + 156];
    proof {
        assert(h[156] == flag);
        assert(dec_entry(s) == Some(
            (
                TarEntryView { name: decode_utf8(nbv), typeflag: flag, data: data@ },
                512 + size as nat + pad_len(size as nat),
            ),
        ));
    }
    Some((TarEntry { name, typeflag: flag, data }, off + (total as usize)))
}

pub open spec fn entry_view_seq(es: Seq<TarEntry>) -> Seq<TarEntryView> {
    es.map_values(|e: TarEntry| e@)
}

/// Decode a whole archive, exactly as `dec_archive` reads it: the
/// entries in order up to the end marker, or nothing for a stream the
/// format does not describe.
pub fn parse_archive(bytes: &Vec<u8>) -> (r: Option<Vec<TarEntry>>)
    ensures
        match r {
            Some(v) => dec_archive(bytes@) == Some(entry_view_seq(v@)),
            None => dec_archive(bytes@) is None,
        },
{
    let mut out: Vec<TarEntry> = Vec::new();
    let mut off: usize = 0;
    proof {
        assert(bytes@.skip(0) =~= bytes@);
        assert(entry_view_seq(out@) =~= Seq::<TarEntryView>::empty());
    }
    loop
        invariant
            off <= bytes.len(),
            dec_archive(bytes@) == match dec_archive(bytes@.skip(off as int)) {
                None => None::<Seq<TarEntryView>>,
                Some(rest) => Some(entry_view_seq(out@) + rest),
            },
        decreases bytes@.len() - off,
    {
        let ghost s = bytes@.skip(off as int);
        if bytes.len() - off < 512 {
            return None;
        }
        // end marker?
        let mut z: usize = 0;
        let mut allz = true;
        while z < 512
            invariant
                z <= 512,
                off + 512 <= bytes.len(),
                s == bytes@.skip(off as int),
                allz == (forall|i: int| 0 <= i < z ==> s[i] == 0),
            decreases 512 - z,
        {
            if bytes[off + z] != 0 {
                proof {
                    assert(s[z as int] != 0);
                }
                allz = false;
            }
            z = z + 1;
        }
        if allz {
            proof {
                assert(is_zero_block(s));
                assert(entry_view_seq(out@) + Seq::<TarEntryView>::empty() =~= entry_view_seq(
                    out@,
                ));
            }
            return Some(out);
        }
        proof {
            assert(!is_zero_block(s));
        }
        match parse_tar_entry(bytes, off) {
            None => {
                return None;
            },
            Some((e, newoff)) => {
                let ghost used = (newoff - off) as nat;
                let ghost pre = entry_view_seq(out@);
                let ghost ev = e@;
                out.push(e);
                proof {
                    assert(entry_view_seq(out@) =~= pre.push(ev));
                    assert(s.skip(used as int) =~= bytes@.skip(newoff as int));
                    assert(dec_archive(s) == match dec_archive(bytes@.skip(newoff as int)) {
                        None => None::<Seq<TarEntryView>>,
                        Some(rest) => Some(seq![ev] + rest),
                    });
                    if dec_archive(bytes@.skip(newoff as int)) is Some {
                        let rest = dec_archive(bytes@.skip(newoff as int))->Some_0;
                        assert(pre + (seq![ev] + rest) =~= entry_view_seq(out@) + rest);
                    }
                }
                off = newoff;
            },
        }
    }
}

} // verus!
