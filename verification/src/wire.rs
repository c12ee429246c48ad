//! The wire codec: length-delimited records over a byte stream.
//!
//! Every record is framed as a varint byte count followed by exactly that
//! many payload bytes.  Inside a payload, strings travel as framed UTF-8,
//! integers as varints, options and unions behind one tag byte.

use vstd::prelude::*;
use vstd::string::StrSliceExecFns;
use vstd::utf8::{valid_utf8, decode_utf8, encode_utf8};
use vstd::slice::{slice_subrange, slice_to_vec};
use crate::varint::{varint_enc, varint_dec, varint_write, varint_read, lemma_varint_round_trip};
use crate::bridge::bytes_to_string;
use crate::device::{
    Device, DeviceView, TcpConnectionInfo, TcpConnectionInfoView, BluetoothLeConnectionInfo,
    BluetoothLeConnectionInfoView, DeviceConnectionInfo, DeviceConnectionInfoView,
    DiscoveryContent, DiscoveryContentView, DeviceDiscoveryMessage, DeviceDiscoveryMessageView,
};
use crate::messages::{
    Request, RequestView, RequestTypes, Intent, IntentView, FileTransferIntent,
    FileTransferIntentView, ClipboardTransferIntent, TransferRequestResponse,
};

verus! {

// ---------------------------------------------------------------------
// Framing: a varint length prefix, then exactly that many bytes.
// ---------------------------------------------------------------------

/// A length-delimited frame holding the bytes `b`.
#[verifier::opaque]
pub open spec fn enc_bytes(b: Seq<u8>) -> Seq<u8> {
    varint_enc(b.len()) + b
}

/// Decode one frame from the front of `s`: the payload and the total
/// bytes consumed, or `None` if `s` ends before the declared length.
#[verifier::opaque]
pub open spec fn dec_bytes(s: Seq<u8>) -> Option<(Seq<u8>, nat)> {
    match varint_dec(s) {
        Some(pair) => if pair.1 + pair.0 <= s.len() {
            Some((s.subrange(pair.1 as int, (pair.1 + pair.0) as int), pair.1 + pair.0))
        } else {
            None
        },
        None => None,
    }
}

/// A reader that is handed a frame followed by anything else consumes
/// exactly the frame and leaves the rest untouched.
pub proof fn lemma_bytes_round_trip(b: Seq<u8>, rest: Seq<u8>)
    ensures
        dec_bytes(enc_bytes(b) + rest) == Some((b, enc_bytes(b).len())),
{
    reveal(enc_bytes);
    reveal(dec_bytes);
    let s = enc_bytes(b) + rest;
    lemma_varint_round_trip(b.len(), b + rest);
    assert(s =~= varint_enc(b.len()) + (b + rest));
    let k = varint_enc(b.len()).len();
    assert(varint_dec(s) == Some((b.len(), k)));
    assert(s.subrange(k as int, (k + b.len()) as int) =~= b);
}

/// Copy `bytes[from..to]` into a fresh vector.
pub fn copy_range(bytes: &Vec<u8>, from: usize, to: usize) -> (r: Vec<u8>)
    requires
        from <= to <= bytes.len(),
    ensures
        r@ == bytes@.subrange(from as int, to as int),
{
    let s = slice_subrange(bytes.as_slice(), from, to);
    slice_to_vec(s)
}

/// Append all of `b` to `out`.
pub fn push_bytes(out: &mut Vec<u8>, b: &Vec<u8>)
    ensures
        final(out)@ == old(out)@ + b@,
{
    let ghost init = out@;
    let mut i: usize = 0;
    while i < b.len()
        invariant
            i <= b.len(),
            out@ == init + b@.take(i as int),
        decreases b.len() - i,
    {
        out.push(b[i]);
        proof {
            assert(init + b@.take(i as int) + seq![b@[i as int]] =~= init + b@.take(i + 1));
        }
        i = i + 1;
    }
    proof {
        assert(init + b@.take(b@.len() as int) =~= init + b@);
    }
}

/// Write one frame holding `payload`.
pub fn write_frame(out: &mut Vec<u8>, payload: &Vec<u8>)
    ensures
        final(out)@ == old(out)@ + enc_bytes(payload@),
{
    varint_write(out, payload.len() as u64);
    push_bytes(out, payload);
    proof {
        reveal(enc_bytes);
        assert(old(out)@ + varint_enc(payload@.len()) + payload@ =~= old(out)@ + enc_bytes(
            payload@,
        ));
    }
}

/// Read one frame at offset `off`: the payload and the offset just past
/// the frame.  `None` exactly when no whole frame is there.
pub fn read_frame(bytes: &Vec<u8>, off: usize) -> (r: Option<(Vec<u8>, usize)>)
    requires
        off <= bytes.len(),
    ensures
        match r {
            Some(pair) => {
                &&& dec_bytes(bytes@.skip(off as int)) == Some(
                    (pair.0@, (pair.1 - off) as nat),
                )
                &&& off < pair.1 <= bytes.len()
            },
            None => dec_bytes(bytes@.skip(off as int)) is None,
        },
{
    proof {
        reveal(dec_bytes);
    }
    let ghost s = bytes@.skip(off as int);
    match varint_read(bytes, off) {
        None => {
            proof {
                if varint_dec(s) is Some {
                    assert(varint_dec(s)->Some_0.0 > u64::MAX);
                    assert(s.len() <= u64::MAX);
                }
            }
            None
        },
        Some((len, end)) => {
            let ghost k = (end - off) as nat;
            if len > (bytes.len() - end) as u64 {
                proof {
                    assert(k + len as nat > s.len());
                }
                None
            } else {
                let stop = end + (len as usize);
                let payload = copy_range(bytes, end, stop);
                proof {
                    assert(s.subrange(k as int, (k + len as nat) as int) =~= bytes@.subrange(
                        end as int,
                        stop as int,
                    ));
                }
                Some((payload, stop))
            }
        },
    }
}

// ---------------------------------------------------------------------
// Primitive fields.
// ---------------------------------------------------------------------

/// A string travels as a frame holding its UTF-8 bytes.
#[verifier::opaque]
pub open spec fn enc_str(s: Seq<char>) -> Seq<u8> {
    enc_bytes(encode_utf8(s))
}

#[verifier::opaque]
pub open spec fn dec_str(s: Seq<u8>) -> Option<(Seq<char>, nat)> {
    match dec_bytes(s) {
        Some(pair) => if valid_utf8(pair.0) {
            Some((decode_utf8(pair.0), pair.1))
        } else {
            None
        },
        None => None,
    }
}

pub proof fn lemma_str_round_trip(s: Seq<char>, rest: Seq<u8>)
    ensures
        dec_str(enc_str(s) + rest) == Some((s, enc_str(s).len())),
{
    reveal(enc_str);
    reveal(dec_str);
    lemma_bytes_round_trip(encode_utf8(s), rest);
    vstd::utf8::encode_utf8_valid_utf8(s);
    vstd::utf8::encode_utf8_decode_utf8(s);
}

pub open spec fn enc_bool(b: bool) -> Seq<u8> {
    seq![if b { 1u8 } else { 0u8 }]
}

pub open spec fn dec_bool(s: Seq<u8>) -> Option<(bool, nat)> {
    if s.len() == 0 {
        None
    } else if s[0] == 0 {
        Some((false, 1))
    } else if s[0] == 1 {
        Some((true, 1))
    } else {
        None
    }
}

pub proof fn lemma_bool_round_trip(b: bool, rest: Seq<u8>)
    ensures
        dec_bool(enc_bool(b) + rest) == Some((b, 1nat)),
{
}

#[verifier::opaque]
pub open spec fn enc_u64(n: u64) -> Seq<u8> {
    varint_enc(n as nat)
}

#[verifier::opaque]
pub open spec fn dec_u64(s: Seq<u8>) -> Option<(u64, nat)> {
    match varint_dec(s) {
        Some(pair) => if pair.0 <= u64::MAX {
            Some((pair.0 as u64, pair.1))
        } else {
            None
        },
        None => None,
    }
}

pub proof fn lemma_u64_round_trip(n: u64, rest: Seq<u8>)
    ensures
        dec_u64(enc_u64(n) + rest) == Some((n, enc_u64(n).len())),
{
    reveal(enc_u64);
    reveal(dec_u64);
    lemma_varint_round_trip(n as nat, rest);
}

#[verifier::opaque]
pub open spec fn enc_u32(n: u32) -> Seq<u8> {
    varint_enc(n as nat)
}

#[verifier::opaque]
pub open spec fn dec_u32(s: Seq<u8>) -> Option<(u32, nat)> {
    match varint_dec(s) {
        Some(pair) => if pair.0 <= u32::MAX {
            Some((pair.0 as u32, pair.1))
        } else {
            None
        },
        None => None,
    }
}

pub proof fn lemma_u32_round_trip(n: u32, rest: Seq<u8>)
    ensures
        dec_u32(enc_u32(n) + rest) == Some((n, enc_u32(n).len())),
{
    reveal(enc_u32);
    reveal(dec_u32);
    lemma_varint_round_trip(n as nat, rest);
}

/// Write a string field.
pub fn write_str(out: &mut Vec<u8>, s: &String)
    ensures
        final(out)@ == old(out)@ + enc_str(s@),
{
    proof {
        reveal(enc_str);
    }
    let b = s.as_str().as_bytes_vec();
    write_frame(out, &b);
}

/// Read a string field.
pub fn read_str(bytes: &Vec<u8>, off: usize) -> (r: Option<(String, usize)>)
    requires
        off <= bytes.len(),
    ensures
        match r {
            Some(pair) => {
                &&& dec_str(bytes@.skip(off as int)) == Some((pair.0@, (pair.1 - off) as nat))
                &&& off < pair.1 <= bytes.len()
            },
            None => dec_str(bytes@.skip(off as int)) is None,
        },
{
    proof {
        reveal(dec_str);
    }
    match read_frame(bytes, off) {
        None => None,
        Some((payload, end)) => {
            let ghost pv = payload@;
            match bytes_to_string(payload) {
                Some(s) => Some((s, end)),
                None => None,
            }
        },
    }
}

/// Write a bool field.
pub fn write_bool(out: &mut Vec<u8>, b: bool)
    ensures
        final(out)@ == old(out)@ + enc_bool(b),
{
    out.push(if b { 1u8 } else { 0u8 });
    proof {
        assert(old(out)@ + enc_bool(b) =~= out@);
    }
}

/// Read a bool field.
pub fn read_bool(bytes: &Vec<u8>, off: usize) -> (r: Option<(bool, usize)>)
    requires
        off <= bytes.len(),
    ensures
        match r {
            Some(pair) => {
                &&& dec_bool(bytes@.skip(off as int)) == Some((pair.0, (pair.1 - off) as nat))
                &&& off < pair.1 <= bytes.len()
            },
            None => dec_bool(bytes@.skip(off as int)) is None,
        },
{
    if off >= bytes.len() {
        return None;
    }
    let b = bytes[off];
    proof {
        assert(bytes@.skip(off as int)[0] == b);
    }
    if b == 0 {
        Some((false, off + 1))
    } else if b == 1 {
        Some((true, off + 1))
    } else {
        None
    }
}

/// Write a `u64` field.
pub fn write_u64(out: &mut Vec<u8>, n: u64)
    ensures
        final(out)@ == old(out)@ + enc_u64(n),
{
    proof {
        reveal(enc_u64);
    }
    varint_write(out, n);
}

/// Read a `u64` field.
pub fn read_u64(bytes: &Vec<u8>, off: usize) -> (r: Option<(u64, usize)>)
    requires
        off <= bytes.len(),
    ensures
        match r {
            Some(pair) => {
                &&& dec_u64(bytes@.skip(off as int)) == Some((pair.0, (pair.1 - off) as nat))
                &&& off < pair.1 <= bytes.len()
            },
            None => dec_u64(bytes@.skip(off as int)) is None,
        },
{
    proof {
        reveal(dec_u64);
    }
    match varint_read(bytes, off) {
        None => {
            proof {
                let s = bytes@.skip(off as int);
                if varint_dec(s) is Some {
                    assert(varint_dec(s)->Some_0.0 > u64::MAX);
                }
            }
            None
        },
        Some((v, end)) => Some((v, end)),
    }
}

/// Write a `u32` field.
pub fn write_u32(out: &mut Vec<u8>, n: u32)
    ensures
        final(out)@ == old(out)@ + enc_u32(n),
{
    proof {
        reveal(enc_u32);
    }
    varint_write(out, n as u64);
}

/// Read a `u32` field.
pub fn read_u32(bytes: &Vec<u8>, off: usize) -> (r: Option<(u32, usize)>)
    requires
        off <= bytes.len(),
    ensures
        match r {
            Some(pair) => {
                &&& dec_u32(bytes@.skip(off as int)) == Some((pair.0, (pair.1 - off) as nat))
                &&& off < pair.1 <= bytes.len()
            },
            None => dec_u32(bytes@.skip(off as int)) is None,
        },
{
    proof {
        reveal(dec_u32);
    }
    match varint_read(bytes, off) {
        None => {
            proof {
                let s = bytes@.skip(off as int);
                if varint_dec(s) is Some {
                    assert(varint_dec(s)->Some_0.0 > u64::MAX);
                }
            }
            None
        },
        Some((v, end)) => {
            if v > u32::MAX as u64 {
                None
            } else {
                Some((v as u32, end))
            }
        },
    }
}

// ---------------------------------------------------------------------
// Optional fields: one tag byte, then the payload if present.
// ---------------------------------------------------------------------

pub open spec fn opt_str_view(o: Option<String>) -> Option<Seq<char>> {
    match o {
        Some(s) => Some(s@),
        None => None,
    }
}

pub open spec fn enc_opt_str(o: Option<Seq<char>>) -> Seq<u8> {
    match o {
        None => seq![0u8],
        Some(s) => seq![1u8] + enc_str(s),
    }
}

pub open spec fn dec_opt_str(s: Seq<u8>) -> Option<(Option<Seq<char>>, nat)> {
    if s.len() == 0 {
        None
    } else if s[0] == 0 {
        Some((None, 1))
    } else if s[0] == 1 {
        match dec_str(s.drop_first()) {
            Some(pair) => Some((Some(pair.0), pair.1 + 1)),
            None => None,
        }
    } else {
        None
    }
}

pub proof fn lemma_opt_str_round_trip(o: Option<Seq<char>>, rest: Seq<u8>)
    ensures
        dec_opt_str(enc_opt_str(o) + rest) == Some((o, enc_opt_str(o).len())),
{
    let full = enc_opt_str(o) + rest;
    match o {
        None => {
            assert(full[0] == 0);
        },
        Some(s0) => {
            assert(full[0] == 1);
            assert(full.drop_first() =~= enc_str(s0) + rest);
            lemma_str_round_trip(s0, rest);
        },
    }
}

pub fn write_opt_str(out: &mut Vec<u8>, o: &Option<String>)
    ensures
        final(out)@ == old(out)@ + enc_opt_str(opt_str_view(*o)),
{
    match o {
        None => {
            out.push(0u8);
            proof {
                assert(old(out)@ + enc_opt_str(opt_str_view(*o)) =~= out@);
            }
        },
        Some(s) => {
            out.push(1u8);
            write_str(out, s);
            proof {
                assert(old(out)@ + enc_opt_str(opt_str_view(*o)) =~= old(out)@ + seq![1u8]
                    + enc_str(s@));
            }
        },
    }
}

pub fn read_opt_str(bytes: &Vec<u8>, off: usize) -> (r: Option<(Option<String>, usize)>)
    requires
        off <= bytes.len(),
    ensures
        match r {
            Some(pair) => {
                &&& dec_opt_str(bytes@.skip(off as int)) == Some(
                    (opt_str_view(pair.0), (pair.1 - off) as nat),
                )
                &&& off < pair.1 <= bytes.len()
            },
            None => dec_opt_str(bytes@.skip(off as int)) is None,
        },
{
    let ghost s = bytes@.skip(off as int);
    if off >= bytes.len() {
        return None;
    }
    let tag = bytes[off];
    proof {
        assert(s[0] == tag);
        assert(s.drop_first() =~= bytes@.skip(off as int + 1));
    }
    if tag == 0 {
        Some((None, off + 1))
    } else if tag == 1 {
        match read_str(bytes, off + 1) {
            None => None,
            Some((v, end)) => Some((Some(v), end)),
        }
    } else {
        None
    }
}

pub open spec fn enc_opt_u32(o: Option<u32>) -> Seq<u8> {
    match o {
        None => seq![0u8],
        Some(n) => seq![1u8] + enc_u32(n),
    }
}

pub open spec fn dec_opt_u32(s: Seq<u8>) -> Option<(Option<u32>, nat)> {
    if s.len() == 0 {
        None
    } else if s[0] == 0 {
        Some((None, 1))
    } else if s[0] == 1 {
        match dec_u32(s.drop_first()) {
            Some(pair) => Some((Some(pair.0), pair.1 + 1)),
            None => None,
        }
    } else {
        None
    }
}

pub proof fn lemma_opt_u32_round_trip(o: Option<u32>, rest: Seq<u8>)
    ensures
        dec_opt_u32(enc_opt_u32(o) + rest) == Some((o, enc_opt_u32(o).len())),
{
    let full = enc_opt_u32(o) + rest;
    match o {
        None => {
            assert(full[0] == 0);
        },
        Some(n) => {
            assert(full[0] == 1);
            assert(full.drop_first() =~= enc_u32(n) + rest);
            lemma_u32_round_trip(n, rest);
        },
    }
}

pub fn write_opt_u32(out: &mut Vec<u8>, o: &Option<u32>)
    ensures
        final(out)@ == old(out)@ + enc_opt_u32(*o),
{
    match o {
        None => {
            out.push(0u8);
            proof {
                assert(old(out)@ + enc_opt_u32(*o) =~= out@);
            }
        },
        Some(n) => {
            out.push(1u8);
            write_u32(out, *n);
            proof {
                assert(old(out)@ + enc_opt_u32(*o) =~= old(out)@ + seq![1u8] + enc_u32(*n));
            }
        },
    }
}

pub fn read_opt_u32(bytes: &Vec<u8>, off: usize) -> (r: Option<(Option<u32>, usize)>)
    requires
        off <= bytes.len(),
    ensures
        match r {
            Some(pair) => {
                &&& dec_opt_u32(bytes@.skip(off as int)) == Some(
                    (pair.0, (pair.1 - off) as nat),
                )
                &&& off < pair.1 <= bytes.len()
            },
            None => dec_opt_u32(bytes@.skip(off as int)) is None,
        },
{
    let ghost s = bytes@.skip(off as int);
    if off >= bytes.len() {
        return None;
    }
    let tag = bytes[off];
    proof {
        assert(s[0] == tag);
        assert(s.drop_first() =~= bytes@.skip(off as int + 1));
    }
    if tag == 0 {
        Some((None, off + 1))
    } else if tag == 1 {
        match read_u32(bytes, off + 1) {
            None => None,
            Some((v, end)) => Some((Some(v), end)),
        }
    } else {
        None
    }
}

// ---------------------------------------------------------------------
// The discovery data model on the wire.
// ---------------------------------------------------------------------

pub open spec fn opt_device_view(o: Option<Device>) -> Option<DeviceView> {
    match o {
        Some(d) => Some(d@),
        None => None,
    }
}

pub open spec fn opt_tcp_view(o: Option<TcpConnectionInfo>) -> Option<TcpConnectionInfoView> {
    match o {
        Some(t) => Some(t@),
        None => None,
    }
}

pub open spec fn opt_ble_view(o: Option<BluetoothLeConnectionInfo>) -> Option<
    BluetoothLeConnectionInfoView,
> {
    match o {
        Some(b) => Some(b@),
        None => None,
    }
}

pub open spec fn enc_device(d: DeviceView) -> Seq<u8> {
    enc_str(d.id) + enc_str(d.name) + enc_opt_u32(d.protocol_version)
}

pub open spec fn dec_device(s: Seq<u8>) -> Option<(DeviceView, nat)> {
    match dec_str(s) {
        None => None,
        Some(p1) => match dec_str(s.skip(p1.1 as int)) {
            None => None,
            Some(p2) => match dec_opt_u32(s.skip((p1.1 + p2.1) as int)) {
                None => None,
                Some(p3) => Some(
                    (
                        DeviceView { id: p1.0, name: p2.0, protocol_version: p3.0 },
                        p1.1 + p2.1 + p3.1,
                    ),
                ),
            },
        },
    }
}

pub proof fn lemma_device_round_trip(d: DeviceView, rest: Seq<u8>)
    ensures
        dec_device(enc_device(d) + rest) == Some((d, enc_device(d).len())),
{
    let s = enc_device(d) + rest;
    let k1 = enc_str(d.id).len();
    let k2 = enc_str(d.name).len();
    let k3 = enc_opt_u32(d.protocol_version).len();
    assert(s =~= enc_str(d.id) + (enc_str(d.name) + enc_opt_u32(d.protocol_version) + rest));
    lemma_str_round_trip(d.id, enc_str(d.name) + enc_opt_u32(d.protocol_version) + rest);
    assert(s.skip(k1 as int) =~= enc_str(d.name) + (enc_opt_u32(d.protocol_version) + rest));
    lemma_str_round_trip(d.name, enc_opt_u32(d.protocol_version) + rest);
    assert(s.skip((k1 + k2) as int) =~= enc_opt_u32(d.protocol_version) + rest);
    lemma_opt_u32_round_trip(d.protocol_version, rest);
}

pub fn write_device(out: &mut Vec<u8>, d: &Device)
    ensures
        final(out)@ == old(out)@ + enc_device(d@),
{
    write_str(out, &d.id);
    write_str(out, &d.name);
    write_opt_u32(out, &d.protocol_version);
    proof {
        assert(old(out)@ + enc_device(d@) =~= out@);
    }
}

pub fn read_device(bytes: &Vec<u8>, off: usize) -> (r: Option<(Device, usize)>)
    requires
        off <= bytes.len(),
    ensures
        match r {
            Some(pair) => {
                &&& dec_device(bytes@.skip(off as int)) == Some((pair.0@, (pair.1 - off) as nat))
                &&& off < pair.1 <= bytes.len()
            },
            None => dec_device(bytes@.skip(off as int)) is None,
        },
{
    let ghost s = bytes@.skip(off as int);
    match read_str(bytes, off) {
        None => None,
        Some((id, o1)) => {
            proof {
                assert(s.skip((o1 - off) as int) =~= bytes@.skip(o1 as int));
            }
            match read_str(bytes, o1) {
                None => None,
                Some((name, o2)) => {
                    proof {
                        assert(s.skip((o2 - off) as int) =~= bytes@.skip(o2 as int));
                    }
                    match read_opt_u32(bytes, o2) {
                        None => None,
                        Some((pv, o3)) => Some(
                            (Device { id, name, protocol_version: pv }, o3),
                        ),
                    }
                },
            }
        },
    }
}

pub open spec fn enc_tcp(t: TcpConnectionInfoView) -> Seq<u8> {
    enc_str(t.hostname) + enc_u32(t.port)
}

pub open spec fn dec_tcp(s: Seq<u8>) -> Option<(TcpConnectionInfoView, nat)> {
    match dec_str(s) {
        None => None,
        Some(p1) => match dec_u32(s.skip(p1.1 as int)) {
            None => None,
            Some(p2) => Some(
                (TcpConnectionInfoView { hostname: p1.0, port: p2.0 }, p1.1 + p2.1),
            ),
        },
    }
}

pub proof fn lemma_tcp_round_trip(t: TcpConnectionInfoView, rest: Seq<u8>)
    ensures
        dec_tcp(enc_tcp(t) + rest) == Some((t, enc_tcp(t).len())),
{
    let s = enc_tcp(t) + rest;
    let k1 = enc_str(t.hostname).len();
    assert(s =~= enc_str(t.hostname) + (enc_u32(t.port) + rest));
    lemma_str_round_trip(t.hostname, enc_u32(t.port) + rest);
    assert(s.skip(k1 as int) =~= enc_u32(t.port) + rest);
    lemma_u32_round_trip(t.port, rest);
}

pub fn write_tcp(out: &mut Vec<u8>, t: &TcpConnectionInfo)
    ensures
        final(out)@ == old(out)@ + enc_tcp(t@),
{
    write_str(out, &t.hostname);
    write_u32(out, t.port);
    proof {
        assert(old(out)@ + enc_tcp(t@) =~= out@);
    }
}

pub fn read_tcp(bytes: &Vec<u8>, off: usize) -> (r: Option<(TcpConnectionInfo, usize)>)
    requires
        off <= bytes.len(),
    ensures
        match r {
            Some(pair) => {
                &&& dec_tcp(bytes@.skip(off as int)) == Some((pair.0@, (pair.1 - off) as nat))
                &&& off < pair.1 <= bytes.len()
            },
            None => dec_tcp(bytes@.skip(off as int)) is None,
        },
{
    let ghost s = bytes@.skip(off as int);
    match read_str(bytes, off) {
        None => None,
        Some((hostname, o1)) => {
            proof {
                assert(s.skip((o1 - off) as int) =~= bytes@.skip(o1 as int));
            }
            match read_u32(bytes, o1) {
                None => None,
                Some((port, o2)) => Some((TcpConnectionInfo { hostname, port }, o2)),
            }
        },
    }
}

pub open spec fn enc_ble(b: BluetoothLeConnectionInfoView) -> Seq<u8> {
    enc_str(b.uuid) + enc_u32(b.psm)
}

pub open spec fn dec_ble(s: Seq<u8>) -> Option<(BluetoothLeConnectionInfoView, nat)> {
    match dec_str(s) {
        None => None,
        Some(p1) => match dec_u32(s.skip(p1.1 as int)) {
            None => None,
            Some(p2) => Some(
                (BluetoothLeConnectionInfoView { uuid: p1.0, psm: p2.0 }, p1.1 + p2.1),
            ),
        },
    }
}

pub proof fn lemma_ble_round_trip(b: BluetoothLeConnectionInfoView, rest: Seq<u8>)
    ensures
        dec_ble(enc_ble(b) + rest) == Some((b, enc_ble(b).len())),
{
    let s = enc_ble(b) + rest;
    let k1 = enc_str(b.uuid).len();
    assert(s =~= enc_str(b.uuid) + (enc_u32(b.psm) + rest));
    lemma_str_round_trip(b.uuid, enc_u32(b.psm) + rest);
    assert(s.skip(k1 as int) =~= enc_u32(b.psm) + rest);
    lemma_u32_round_trip(b.psm, rest);
}

pub fn write_ble(out: &mut Vec<u8>, b: &BluetoothLeConnectionInfo)
    ensures
        final(out)@ == old(out)@ + enc_ble(b@),
{
    write_str(out, &b.uuid);
    write_u32(out, b.psm);
    proof {
        assert(old(out)@ + enc_ble(b@) =~= out@);
    }
}

pub fn read_ble(bytes: &Vec<u8>, off: usize) -> (r: Option<(BluetoothLeConnectionInfo, usize)>)
    requires
        off <= bytes.len(),
    ensures
        match r {
            Some(pair) => {
                &&& dec_ble(bytes@.skip(off as int)) == Some((pair.0@, (pair.1 - off) as nat))
                &&& off < pair.1 <= bytes.len()
            },
            None => dec_ble(bytes@.skip(off as int)) is None,
        },
{
    let ghost s = bytes@.skip(off as int);
    match read_str(bytes, off) {
        None => None,
        Some((uuid, o1)) => {
            proof {
                assert(s.skip((o1 - off) as int) =~= bytes@.skip(o1 as int));
            }
            match read_u32(bytes, o1) {
                None => None,
                Some((psm, o2)) => Some((BluetoothLeConnectionInfo { uuid, psm }, o2)),
            }
        },
    }
}

pub open spec fn enc_opt_device(o: Option<DeviceView>) -> Seq<u8> {
    match o {
        None => seq![0u8],
        Some(d) => seq![1u8] + enc_device(d),
    }
}

pub open spec fn dec_opt_device(s: Seq<u8>) -> Option<(Option<DeviceView>, nat)> {
    if s.len() == 0 {
        None
    } else if s[0] == 0 {
        Some((None, 1))
    } else if s[0] == 1 {
        match dec_device(s.drop_first()) {
            Some(pair) => Some((Some(pair.0), pair.1 + 1)),
            None => None,
        }
    } else {
        None
    }
}

pub proof fn lemma_opt_device_round_trip(o: Option<DeviceView>, rest: Seq<u8>)
    ensures
        dec_opt_device(enc_opt_device(o) + rest) == Some((o, enc_opt_device(o).len())),
{
    let full = enc_opt_device(o) + rest;
    match o {
        None => {
            assert(full[0] == 0);
        },
        Some(d) => {
            assert(full[0] == 1);
            assert(full.drop_first() =~= enc_device(d) + rest);
            lemma_device_round_trip(d, rest);
        },
    }
}

pub fn write_opt_device(out: &mut Vec<u8>, o: &Option<Device>)
    ensures
        final(out)@ == old(out)@ + enc_opt_device(opt_device_view(*o)),
{
    match o {
        None => {
            out.push(0u8);
            proof {
                assert(old(out)@ + enc_opt_device(opt_device_view(*o)) =~= out@);
            }
        },
        Some(d) => {
            out.push(1u8);
            write_device(out, d);
            proof {
                assert(old(out)@ + enc_opt_device(opt_device_view(*o)) =~= old(out)@ + seq![1u8]
                    + enc_device(d@));
            }
        },
    }
}

pub fn read_opt_device(bytes: &Vec<u8>, off: usize) -> (r: Option<(Option<Device>, usize)>)
    requires
        off <= bytes.len(),
    ensures
        match r {
            Some(pair) => {
                &&& dec_opt_device(bytes@.skip(off as int)) == Some(
                    (opt_device_view(pair.0), (pair.1 - off) as nat),
                )
                &&& off < pair.1 <= bytes.len()
            },
            None => dec_opt_device(bytes@.skip(off as int)) is None,
        },
{
    let ghost s = bytes@.skip(off as int);
    if off >= bytes.len() {
        return None;
    }
    let tag = bytes[off];
    proof {
        assert(s[0] == tag);
        assert(s.drop_first() =~= bytes@.skip(off as int + 1));
    }
    if tag == 0 {
        Some((None, off + 1))
    } else if tag == 1 {
        match read_device(bytes, off + 1) {
            None => None,
            Some((v, end)) => Some((Some(v), end)),
        }
    } else {
        None
    }
}

pub open spec fn enc_opt_tcp(o: Option<TcpConnectionInfoView>) -> Seq<u8> {
    match o {
        None => seq![0u8],
        Some(t) => seq![1u8] + enc_tcp(t),
    }
}

pub open spec fn dec_opt_tcp(s: Seq<u8>) -> Option<(Option<TcpConnectionInfoView>, nat)> {
    if s.len() == 0 {
        None
    } else if s[0] == 0 {
        Some((None, 1))
    } else if s[0] == 1 {
        match dec_tcp(s.drop_first()) {
            Some(pair) => Some((Some(pair.0), pair.1 + 1)),
            None => None,
        }
    } else {
        None
    }
}

pub proof fn lemma_opt_tcp_round_trip(o: Option<TcpConnectionInfoView>, rest: Seq<u8>)
    ensures
        dec_opt_tcp(enc_opt_tcp(o) + rest) == Some((o, enc_opt_tcp(o).len())),
{
    let full = enc_opt_tcp(o) + rest;
    match o {
        None => {
            assert(full[0] == 0);
        },
        Some(t) => {
            assert(full[0] == 1);
            assert(full.drop_first() =~= enc_tcp(t) + rest);
            lemma_tcp_round_trip(t, rest);
        },
    }
}

pub fn write_opt_tcp(out: &mut Vec<u8>, o: &Option<TcpConnectionInfo>)
    ensures
        final(out)@ == old(out)@ + enc_opt_tcp(opt_tcp_view(*o)),
{
    match o {
        None => {
            out.push(0u8);
            proof {
                assert(old(out)@ + enc_opt_tcp(opt_tcp_view(*o)) =~= out@);
            }
        },
        Some(t) => {
            out.push(1u8);
            write_tcp(out, t);
            proof {
                assert(old(out)@ + enc_opt_tcp(opt_tcp_view(*o)) =~= old(out)@ + seq![1u8]
                    + enc_tcp(t@));
            }
        },
    }
}

pub fn read_opt_tcp(bytes: &Vec<u8>, off: usize) -> (r: Option<(Option<TcpConnectionInfo>, usize)>)
    requires
        off <= bytes.len(),
    ensures
        match r {
            Some(pair) => {
                &&& dec_opt_tcp(bytes@.skip(off as int)) == Some(
                    (opt_tcp_view(pair.0), (pair.1 - off) as nat),
                )
                &&& off < pair.1 <= bytes.len()
            },
            None => dec_opt_tcp(bytes@.skip(off as int)) is None,
        },
{
    let ghost s = bytes@.skip(off as int);
    if off >= bytes.len() {
        return None;
    }
    let tag = bytes[off];
    proof {
        assert(s[0] == tag);
        assert(s.drop_first() =~= bytes@.skip(off as int + 1));
    }
    if tag == 0 {
        Some((None, off + 1))
    } else if tag == 1 {
        match read_tcp(bytes, off + 1) {
            None => None,
            Some((v, end)) => Some((Some(v), end)),
        }
    } else {
        None
    }
}

pub open spec fn enc_opt_ble(o: Option<BluetoothLeConnectionInfoView>) -> Seq<u8> {
    match o {
        None => seq![0u8],
        Some(b) => seq![1u8] + enc_ble(b),
    }
}

pub open spec fn dec_opt_ble(s: Seq<u8>) -> Option<(Option<BluetoothLeConnectionInfoView>, nat)> {
    if s.len() == 0 {
        None
    } else if s[0] == 0 {
        Some((None, 1))
    } else if s[0] == 1 {
        match dec_ble(s.drop_first()) {
            Some(pair) => Some((Some(pair.0), pair.1 + 1)),
            None => None,
        }
    } else {
        None
    }
}

pub proof fn lemma_opt_ble_round_trip(o: Option<BluetoothLeConnectionInfoView>, rest: Seq<u8>)
    ensures
        dec_opt_ble(enc_opt_ble(o) + rest) == Some((o, enc_opt_ble(o).len())),
{
    let full = enc_opt_ble(o) + rest;
    match o {
        None => {
            assert(full[0] == 0);
        },
        Some(b) => {
            assert(full[0] == 1);
            assert(full.drop_first() =~= enc_ble(b) + rest);
            lemma_ble_round_trip(b, rest);
        },
    }
}

pub fn write_opt_ble(out: &mut Vec<u8>, o: &Option<BluetoothLeConnectionInfo>)
    ensures
        final(out)@ == old(out)@ + enc_opt_ble(opt_ble_view(*o)),
{
    match o {
        None => {
            out.push(0u8);
            proof {
                assert(old(out)@ + enc_opt_ble(opt_ble_view(*o)) =~= out@);
            }
        },
        Some(b) => {
            out.push(1u8);
            write_ble(out, b);
            proof {
                assert(old(out)@ + enc_opt_ble(opt_ble_view(*o)) =~= old(out)@ + seq![1u8]
                    + enc_ble(b@));
            }
        },
    }
}

pub fn read_opt_ble(bytes: &Vec<u8>, off: usize) -> (r: Option<
    (Option<BluetoothLeConnectionInfo>, usize),
>)
    requires
        off <= bytes.len(),
    ensures
        match r {
            Some(pair) => {
                &&& dec_opt_ble(bytes@.skip(off as int)) == Some(
                    (opt_ble_view(pair.0), (pair.1 - off) as nat),
                )
                &&& off < pair.1 <= bytes.len()
            },
            None => dec_opt_ble(bytes@.skip(off as int)) is None,
        },
{
    let ghost s = bytes@.skip(off as int);
    if off >= bytes.len() {
        return None;
    }
    let tag = bytes[off];
    proof {
        assert(s[0] == tag);
        assert(s.drop_first() =~= bytes@.skip(off as int + 1));
    }
    if tag == 0 {
        Some((None, off + 1))
    } else if tag == 1 {
        match read_ble(bytes, off + 1) {
            None => None,
            Some((v, end)) => Some((Some(v), end)),
        }
    } else {
        None
    }
}

pub open spec fn enc_connection_info(i: DeviceConnectionInfoView) -> Seq<u8> {
    enc_opt_device(i.device) + enc_opt_ble(i.ble) + enc_opt_tcp(i.tcp)
}

pub open spec fn dec_connection_info(s: Seq<u8>) -> Option<(DeviceConnectionInfoView, nat)> {
    match dec_opt_device(s) {
        None => None,
        Some(p1) => match dec_opt_ble(s.skip(p1.1 as int)) {
            None => None,
            Some(p2) => match dec_opt_tcp(s.skip((p1.1 + p2.1) as int)) {
                None => None,
                Some(p3) => Some(
                    (
                        DeviceConnectionInfoView { device: p1.0, ble: p2.0, tcp: p3.0 },
                        p1.1 + p2.1 + p3.1,
                    ),
                ),
            },
        },
    }
}

#[verifier::rlimit(100)]
#[verifier::spinoff_prover]
pub proof fn lemma_connection_info_round_trip(i: DeviceConnectionInfoView, rest: Seq<u8>)
    ensures
        dec_connection_info(enc_connection_info(i) + rest) == Some(
            (i, enc_connection_info(i).len()),
        ),
{
    let s = enc_connection_info(i) + rest;
    let k1 = enc_opt_device(i.device).len();
    let k2 = enc_opt_ble(i.ble).len();
    let k3 = enc_opt_tcp(i.tcp).len();
    assert(dec_opt_device(s) == Some((i.device, k1))) by {
        assert(s =~= enc_opt_device(i.device) + (enc_opt_ble(i.ble) + enc_opt_tcp(i.tcp)
            + rest));
        lemma_opt_device_round_trip(i.device, enc_opt_ble(i.ble) + enc_opt_tcp(i.tcp) + rest);
    }
    assert(dec_opt_ble(s.skip(k1 as int)) == Some((i.ble, k2))) by {
        assert(s.skip(k1 as int) =~= enc_opt_ble(i.ble) + (enc_opt_tcp(i.tcp) + rest));
        lemma_opt_ble_round_trip(i.ble, enc_opt_tcp(i.tcp) + rest);
    }
    assert(dec_opt_tcp(s.skip((k1 + k2) as int)) == Some((i.tcp, k3))) by {
        assert(s.skip((k1 + k2) as int) =~= enc_opt_tcp(i.tcp) + rest);
        lemma_opt_tcp_round_trip(i.tcp, rest);
    }
    assert(enc_connection_info(i).len() == k1 + k2 + k3);
}

pub fn write_connection_info(out: &mut Vec<u8>, i: &DeviceConnectionInfo)
    ensures
        final(out)@ == old(out)@ + enc_connection_info(i@),
{
    write_opt_device(out, &i.device);
    write_opt_ble(out, &i.ble);
    write_opt_tcp(out, &i.tcp);
    proof {
        assert(old(out)@ + enc_connection_info(i@) =~= out@);
    }
}

#[verifier::rlimit(100)]
#[verifier::spinoff_prover]
pub fn read_connection_info(bytes: &Vec<u8>, off: usize) -> (r: Option<
    (DeviceConnectionInfo, usize),
>)
    requires
        off <= bytes.len(),
    ensures
        match r {
            Some(pair) => {
                &&& dec_connection_info(bytes@.skip(off as int)) == Some(
                    (pair.0@, (pair.1 - off) as nat),
                )
                &&& off < pair.1 <= bytes.len()
            },
            None => dec_connection_info(bytes@.skip(off as int)) is None,
        },
{
    let ghost s = bytes@.skip(off as int);
    match read_opt_device(bytes, off) {
        None => None,
        Some((device, o1)) => {
            proof {
                assert(s.skip((o1 - off) as int) =~= bytes@.skip(o1 as int));
            }
            match read_opt_ble(bytes, o1) {
                None => None,
                Some((ble, o2)) => {
                    proof {
                        assert(s.skip((o2 - off) as int) =~= bytes@.skip(o2 as int));
                    }
                    match read_opt_tcp(bytes, o2) {
                        None => None,
                        Some((tcp, o3)) => Some(
                            (DeviceConnectionInfo { device, ble, tcp }, o3),
                        ),
                    }
                },
            }
        },
    }
}

// ---------------------------------------------------------------------
// The discovery message: a tagged union of "online" and "offline".
// ---------------------------------------------------------------------

pub open spec fn enc_discovery_message(m: DeviceDiscoveryMessageView) -> Seq<u8> {
    match m.content {
        None => seq![0u8],
        Some(DiscoveryContentView::ConnectionInfo(i)) => seq![1u8] + enc_connection_info(i),
        Some(DiscoveryContentView::OfflineDeviceId(id)) => seq![2u8] + enc_str(id),
    }
}

pub open spec fn dec_discovery_message(s: Seq<u8>) -> Option<(DeviceDiscoveryMessageView, nat)> {
    if s.len() == 0 {
        None
    } else if s[0] == 0 {
        Some((DeviceDiscoveryMessageView { content: None }, 1))
    } else if s[0] == 1 {
        match dec_connection_info(s.drop_first()) {
            Some(pair) => Some(
                (
                    DeviceDiscoveryMessageView {
                        content: Some(DiscoveryContentView::ConnectionInfo(pair.0)),
                    },
                    pair.1 + 1,
                ),
            ),
            None => None,
        }
    } else if s[0] == 2 {
        match dec_str(s.drop_first()) {
            Some(pair) => Some(
                (
                    DeviceDiscoveryMessageView {
                        content: Some(DiscoveryContentView::OfflineDeviceId(pair.0)),
                    },
                    pair.1 + 1,
                ),
            ),
            None => None,
        }
    } else {
        None
    }
}

pub proof fn lemma_discovery_message_round_trip(m: DeviceDiscoveryMessageView, rest: Seq<u8>)
    ensures
        dec_discovery_message(enc_discovery_message(m) + rest) == Some(
            (m, enc_discovery_message(m).len()),
        ),
{
    let full = enc_discovery_message(m) + rest;
    match m.content {
        None => {
            assert(full[0] == 0);
        },
        Some(DiscoveryContentView::ConnectionInfo(i)) => {
            assert(full[0] == 1);
            assert(full.drop_first() =~= enc_connection_info(i) + rest);
            lemma_connection_info_round_trip(i, rest);
        },
        Some(DiscoveryContentView::OfflineDeviceId(id)) => {
            assert(full[0] == 2);
            assert(full.drop_first() =~= enc_str(id) + rest);
            lemma_str_round_trip(id, rest);
        },
    }
}

pub fn write_discovery_message(out: &mut Vec<u8>, m: &DeviceDiscoveryMessage)
    ensures
        final(out)@ == old(out)@ + enc_discovery_message(m@),
{
    match &m.content {
        None => {
            out.push(0u8);
            proof {
                assert(old(out)@ + enc_discovery_message(m@) =~= out@);
            }
        },
        Some(DiscoveryContent::ConnectionInfo(i)) => {
            out.push(1u8);
            write_connection_info(out, i);
            proof {
                assert(old(out)@ + enc_discovery_message(m@) =~= old(out)@ + seq![1u8]
                    + enc_connection_info(i@));
            }
        },
        Some(DiscoveryContent::OfflineDeviceId(id)) => {
            out.push(2u8);
            write_str(out, id);
            proof {
                assert(old(out)@ + enc_discovery_message(m@) =~= old(out)@ + seq![2u8] + enc_str(
                    id@,
                ));
            }
        },
    }
}

pub fn read_discovery_message(bytes: &Vec<u8>, off: usize) -> (r: Option<
    (DeviceDiscoveryMessage, usize),
>)
    requires
        off <= bytes.len(),
    ensures
        match r {
            Some(pair) => {
                &&& dec_discovery_message(bytes@.skip(off as int)) == Some(
                    (pair.0@, (pair.1 - off) as nat),
                )
                &&& off < pair.1 <= bytes.len()
            },
            None => dec_discovery_message(bytes@.skip(off as int)) is None,
        },
{
    let ghost s = bytes@.skip(off as int);
    if off >= bytes.len() {
        return None;
    }
    let tag = bytes[off];
    proof {
        assert(s[0] == tag);
        assert(s.drop_first() =~= bytes@.skip(off as int + 1));
    }
    if tag == 0 {
        Some((DeviceDiscoveryMessage { content: None }, off + 1))
    } else if tag == 1 {
        match read_connection_info(bytes, off + 1) {
            None => None,
            Some((i, end)) => Some(
                (DeviceDiscoveryMessage { content: Some(DiscoveryContent::ConnectionInfo(i)) }, end),
            ),
        }
    } else if tag == 2 {
        match read_str(bytes, off + 1) {
            None => None,
            Some((id, end)) => Some(
                (
                    DeviceDiscoveryMessage { content: Some(DiscoveryContent::OfflineDeviceId(id)) },
                    end,
                ),
            ),
        }
    } else {
        None
    }
}

// ---------------------------------------------------------------------
// Requests and responses.
// ---------------------------------------------------------------------

pub open spec fn opt_intent_view(o: Option<Intent>) -> Option<IntentView> {
    match o {
        Some(i) => Some(i@),
        None => None,
    }
}

pub open spec fn enc_rtype(t: RequestTypes) -> Seq<u8> {
    match t {
        RequestTypes::ShareRequest => seq![0u8],
        RequestTypes::ConvenienceDownloadRequest => seq![1u8],
    }
}

pub open spec fn dec_rtype(s: Seq<u8>) -> Option<(RequestTypes, nat)> {
    if s.len() == 0 {
        None
    } else if s[0] == 0 {
        Some((RequestTypes::ShareRequest, 1))
    } else if s[0] == 1 {
        Some((RequestTypes::ConvenienceDownloadRequest, 1))
    } else {
        None
    }
}

pub proof fn lemma_rtype_round_trip(t: RequestTypes, rest: Seq<u8>)
    ensures
        dec_rtype(enc_rtype(t) + rest) == Some((t, 1nat)),
{
    let full = enc_rtype(t) + rest;
    match t {
        RequestTypes::ShareRequest => assert(full[0] == 0),
        RequestTypes::ConvenienceDownloadRequest => assert(full[0] == 1),
    }
}

pub fn write_rtype(out: &mut Vec<u8>, t: RequestTypes)
    ensures
        final(out)@ == old(out)@ + enc_rtype(t),
{
    match t {
        RequestTypes::ShareRequest => out.push(0u8),
        RequestTypes::ConvenienceDownloadRequest => out.push(1u8),
    }
    proof {
        assert(old(out)@ + enc_rtype(t) =~= out@);
    }
}

pub fn read_rtype(bytes: &Vec<u8>, off: usize) -> (r: Option<(RequestTypes, usize)>)
    requires
        off <= bytes.len(),
    ensures
        match r {
            Some(pair) => {
                &&& dec_rtype(bytes@.skip(off as int)) == Some((pair.0, (pair.1 - off) as nat))
                &&& off < pair.1 <= bytes.len()
            },
            None => dec_rtype(bytes@.skip(off as int)) is None,
        },
{
    if off >= bytes.len() {
        return None;
    }
    let tag = bytes[off];
    proof {
        assert(bytes@.skip(off as int)[0] == tag);
    }
    if tag == 0 {
        Some((RequestTypes::ShareRequest, off + 1))
    } else if tag == 1 {
        Some((RequestTypes::ConvenienceDownloadRequest, off + 1))
    } else {
        None
    }
}

pub open spec fn enc_file_intent(f: FileTransferIntentView) -> Seq<u8> {
    enc_opt_str(f.file_name) + enc_u64(f.file_size) + enc_u64(f.file_count)
}

pub open spec fn dec_file_intent(s: Seq<u8>) -> Option<(FileTransferIntentView, nat)> {
    match dec_opt_str(s) {
        None => None,
        Some(p1) => match dec_u64(s.skip(p1.1 as int)) {
            None => None,
            Some(p2) => match dec_u64(s.skip((p1.1 + p2.1) as int)) {
                None => None,
                Some(p3) => Some(
                    (
                        FileTransferIntentView {
                            file_name: p1.0,
                            file_size: p2.0,
                            file_count: p3.0,
                        },
                        p1.1 + p2.1 + p3.1,
                    ),
                ),
            },
        },
    }
}

pub proof fn lemma_file_intent_round_trip(f: FileTransferIntentView, rest: Seq<u8>)
    ensures
        dec_file_intent(enc_file_intent(f) + rest) == Some((f, enc_file_intent(f).len())),
{
    let s = enc_file_intent(f) + rest;
    let k1 = enc_opt_str(f.file_name).len();
    let k2 = enc_u64(f.file_size).len();
    let k3 = enc_u64(f.file_count).len();
    assert(s =~= enc_opt_str(f.file_name) + (enc_u64(f.file_size) + enc_u64(f.file_count)
        + rest));
    lemma_opt_str_round_trip(f.file_name, enc_u64(f.file_size) + enc_u64(f.file_count) + rest);
    assert(dec_opt_str(s) == Some((f.file_name, k1)));
    assert(s.skip(k1 as int) =~= enc_u64(f.file_size) + (enc_u64(f.file_count) + rest));
    lemma_u64_round_trip(f.file_size, enc_u64(f.file_count) + rest);
    assert(dec_u64(s.skip(k1 as int)) == Some((f.file_size, k2)));
    assert(s.skip((k1 + k2) as int) =~= enc_u64(f.file_count) + rest);
    lemma_u64_round_trip(f.file_count, rest);
    assert(dec_u64(s.skip((k1 + k2) as int)) == Some((f.file_count, k3)));
}

pub fn write_file_intent(out: &mut Vec<u8>, f: &FileTransferIntent)
    ensures
        final(out)@ == old(out)@ + enc_file_intent(f@),
{
    write_opt_str(out, &f.file_name);
    write_u64(out, f.file_size);
    write_u64(out, f.file_count);
    proof {
        assert(old(out)@ + enc_file_intent(f@) =~= out@);
    }
}

pub fn read_file_intent(bytes: &Vec<u8>, off: usize) -> (r: Option<(FileTransferIntent, usize)>)
    requires
        off <= bytes.len(),
    ensures
        match r {
            Some(pair) => {
                &&& dec_file_intent(bytes@.skip(off as int)) == Some(
                    (pair.0@, (pair.1 - off) as nat),
                )
                &&& off < pair.1 <= bytes.len()
            },
            None => dec_file_intent(bytes@.skip(off as int)) is None,
        },
{
    let ghost s = bytes@.skip(off as int);
    match read_opt_str(bytes, off) {
        None => None,
        Some((file_name, o1)) => {
            proof {
                assert(s.skip((o1 - off) as int) =~= bytes@.skip(o1 as int));
            }
            match read_u64(bytes, o1) {
                None => None,
                Some((file_size, o2)) => {
                    proof {
                        assert(s.skip((o2 - off) as int) =~= bytes@.skip(o2 as int));
                    }
                    match read_u64(bytes, o2) {
                        None => None,
                        Some((file_count, o3)) => Some(
                            (FileTransferIntent { file_name, file_size, file_count }, o3),
                        ),
                    }
                },
            }
        },
    }
}

pub open spec fn enc_opt_intent(o: Option<IntentView>) -> Seq<u8> {
    match o {
        None => seq![0u8],
        Some(IntentView::FileTransfer(f)) => seq![1u8] + enc_file_intent(f),
        Some(IntentView::Clipboard(c)) => seq![2u8] + enc_str(c),
    }
}

pub open spec fn dec_opt_intent(s: Seq<u8>) -> Option<(Option<IntentView>, nat)> {
    if s.len() == 0 {
        None
    } else if s[0] == 0 {
        Some((None, 1))
    } else if s[0] == 1 {
        match dec_file_intent(s.drop_first()) {
            Some(pair) => Some((Some(IntentView::FileTransfer(pair.0)), pair.1 + 1)),
            None => None,
        }
    } else if s[0] == 2 {
        match dec_str(s.drop_first()) {
            Some(pair) => Some((Some(IntentView::Clipboard(pair.0)), pair.1 + 1)),
            None => None,
        }
    } else {
        None
    }
}

pub proof fn lemma_opt_intent_round_trip(o: Option<IntentView>, rest: Seq<u8>)
    ensures
        dec_opt_intent(enc_opt_intent(o) + rest) == Some((o, enc_opt_intent(o).len())),
{
    let full = enc_opt_intent(o) + rest;
    match o {
        None => {
            assert(full[0] == 0);
        },
        Some(IntentView::FileTransfer(f)) => {
            assert(full[0] == 1);
            assert(full.drop_first() =~= enc_file_intent(f) + rest);
            lemma_file_intent_round_trip(f, rest);
        },
        Some(IntentView::Clipboard(c)) => {
            assert(full[0] == 2);
            assert(full.drop_first() =~= enc_str(c) + rest);
            lemma_str_round_trip(c, rest);
        },
    }
}

pub fn write_opt_intent(out: &mut Vec<u8>, o: &Option<Intent>)
    ensures
        final(out)@ == old(out)@ + enc_opt_intent(opt_intent_view(*o)),
{
    match o {
        None => {
            out.push(0u8);
            proof {
                assert(old(out)@ + enc_opt_intent(opt_intent_view(*o)) =~= out@);
            }
        },
        Some(Intent::FileTransfer(f)) => {
            out.push(1u8);
            write_file_intent(out, f);
            proof {
                assert(old(out)@ + enc_opt_intent(opt_intent_view(*o)) =~= old(out)@ + seq![1u8]
                    + enc_file_intent(f@));
            }
        },
        Some(Intent::Clipboard(c)) => {
            out.push(2u8);
            write_str(out, &c.clipboard_content);
            proof {
                assert(old(out)@ + enc_opt_intent(opt_intent_view(*o)) =~= old(out)@ + seq![2u8]
                    + enc_str(c.clipboard_content@));
            }
        },
    }
}

pub fn read_opt_intent(bytes: &Vec<u8>, off: usize) -> (r: Option<(Option<Intent>, usize)>)
    requires
        off <= bytes.len(),
    ensures
        match r {
            Some(pair) => {
                &&& dec_opt_intent(bytes@.skip(off as int)) == Some(
                    (opt_intent_view(pair.0), (pair.1 - off) as nat),
                )
                &&& off < pair.1 <= bytes.len()
            },
            None => dec_opt_intent(bytes@.skip(off as int)) is None,
        },
{
    let ghost s = bytes@.skip(off as int);
    if off >= bytes.len() {
        return None;
    }
    let tag = bytes[off];
    proof {
        assert(s[0] == tag);
        assert(s.drop_first() =~= bytes@.skip(off as int + 1));
    }
    if tag == 0 {
        Some((None, off + 1))
    } else if tag == 1 {
        match read_file_intent(bytes, off + 1) {
            None => None,
            Some((f, end)) => Some((Some(Intent::FileTransfer(f)), end)),
        }
    } else if tag == 2 {
        match read_str(bytes, off + 1) {
            None => None,
            Some((c, end)) => Some(
                (Some(Intent::Clipboard(ClipboardTransferIntent { clipboard_content: c })), end),
            ),
        }
    } else {
        None
    }
}

pub open spec fn enc_request(r: RequestView) -> Seq<u8> {
    enc_rtype(r.request_type) + enc_opt_device(r.device) + enc_opt_str(r.share_id)
        + enc_opt_intent(r.intent)
}

pub open spec fn dec_request(s: Seq<u8>) -> Option<(RequestView, nat)> {
    match dec_rtype(s) {
        None => None,
        Some(p1) => match dec_opt_device(s.skip(p1.1 as int)) {
            None => None,
            Some(p2) => match dec_opt_str(s.skip((p1.1 + p2.1) as int)) {
                None => None,
                Some(p3) => match dec_opt_intent(s.skip((p1.1 + p2.1 + p3.1) as int)) {
                    None => None,
                    Some(p4) => Some(
                        (
                            RequestView {
                                request_type: p1.0,
                                device: p2.0,
                                share_id: p3.0,
                                intent: p4.0,
                            },
                            p1.1 + p2.1 + p3.1 + p4.1,
                        ),
                    ),
                },
            },
        },
    }
}

#[verifier::rlimit(100)]
#[verifier::spinoff_prover]
pub proof fn lemma_request_round_trip(r: RequestView, rest: Seq<u8>)
    ensures
        dec_request(enc_request(r) + rest) == Some((r, enc_request(r).len())),
{
    let s = enc_request(r) + rest;
    let k1 = enc_rtype(r.request_type).len();
    let k2 = enc_opt_device(r.device).len();
    let k3 = enc_opt_str(r.share_id).len();
    let k4 = enc_opt_intent(r.intent).len();
    assert(dec_rtype(s) == Some((r.request_type, k1))) by {
        assert(s =~= enc_rtype(r.request_type) + (enc_opt_device(r.device) + enc_opt_str(
            r.share_id,
        ) + enc_opt_intent(r.intent) + rest));
        lemma_rtype_round_trip(
            r.request_type,
            enc_opt_device(r.device) + enc_opt_str(r.share_id) + enc_opt_intent(r.intent) + rest,
        );
    }
    assert(dec_opt_device(s.skip(k1 as int)) == Some((r.device, k2))) by {
        assert(s.skip(k1 as int) =~= enc_opt_device(r.device) + (enc_opt_str(r.share_id)
            + enc_opt_intent(r.intent) + rest));
        lemma_opt_device_round_trip(
            r.device,
            enc_opt_str(r.share_id) + enc_opt_intent(r.intent) + rest,
        );
    }
    assert(dec_opt_str(s.skip((k1 + k2) as int)) == Some((r.share_id, k3))) by {
        assert(s.skip((k1 + k2) as int) =~= enc_opt_str(r.share_id) + (enc_opt_intent(r.intent)
            + rest));
        lemma_opt_str_round_trip(r.share_id, enc_opt_intent(r.intent) + rest);
    }
    assert(dec_opt_intent(s.skip((k1 + k2 + k3) as int)) == Some((r.intent, k4))) by {
        assert(s.skip((k1 + k2 + k3) as int) =~= enc_opt_intent(r.intent) + rest);
        lemma_opt_intent_round_trip(r.intent, rest);
    }
    assert(enc_request(r).len() == k1 + k2 + k3 + k4);
}

pub fn write_request(out: &mut Vec<u8>, r: &Request)
    ensures
        final(out)@ == old(out)@ + enc_request(r@),
{
    write_rtype(out, r.request_type);
    write_opt_device(out, &r.device);
    write_opt_str(out, &r.share_id);
    write_opt_intent(out, &r.intent);
    proof {
        assert(old(out)@ + enc_request(r@) =~= out@);
    }
}

#[verifier::rlimit(50)]
pub fn read_request(bytes: &Vec<u8>, off: usize) -> (r: Option<(Request, usize)>)
    requires
        off <= bytes.len(),
    ensures
        match r {
            Some(pair) => {
                &&& dec_request(bytes@.skip(off as int)) == Some((pair.0@, (pair.1 - off) as nat))
                &&& off < pair.1 <= bytes.len()
            },
            None => dec_request(bytes@.skip(off as int)) is None,
        },
{
    let ghost s = bytes@.skip(off as int);
    match read_rtype(bytes, off) {
        None => None,
        Some((request_type, o1)) => {
            proof {
                assert(s.skip((o1 - off) as int) =~= bytes@.skip(o1 as int));
            }
            match read_opt_device(bytes, o1) {
                None => None,
                Some((device, o2)) => {
                    proof {
                        assert(s.skip((o2 - off) as int) =~= bytes@.skip(o2 as int));
                    }
                    match read_opt_str(bytes, o2) {
                        None => None,
                        Some((share_id, o3)) => {
                            proof {
                                assert(s.skip((o3 - off) as int) =~= bytes@.skip(o3 as int));
                            }
                            match read_opt_intent(bytes, o3) {
                                None => None,
                                Some((intent, o4)) => Some(
                                    (Request { request_type, device, share_id, intent }, o4),
                                ),
                            }
                        },
                    }
                },
            }
        },
    }
}

pub open spec fn enc_response(accepted: bool) -> Seq<u8> {
    enc_bool(accepted)
}

pub open spec fn dec_response(s: Seq<u8>) -> Option<(bool, nat)> {
    dec_bool(s)
}

pub fn write_response(out: &mut Vec<u8>, r: &TransferRequestResponse)
    ensures
        final(out)@ == old(out)@ + enc_response(r.accepted),
{
    write_bool(out, r.accepted);
}

// ---------------------------------------------------------------------
// Records: one framed message, decoded to its end and no further.
// ---------------------------------------------------------------------

/// How reading a record can fail: the buffer ended inside the record, or
/// the bytes do not decode.
#[derive(PartialEq, Eq, Structural, Clone, Copy, Debug)]
pub enum CodecError {
    ShortRead,
    DecodeError,
}

/// Decode a record frame: `ShortRead` when the buffer ends inside the
/// length prefix or before the declared byte count, `DecodeError` when
/// the declared length cannot be represented.
pub open spec fn dec_record_frame(s: Seq<u8>) -> Result<(Seq<u8>, nat), CodecError> {
    match varint_dec(s) {
        None => Err(CodecError::ShortRead),
        Some(p) => if p.0 > u64::MAX as nat {
            Err(CodecError::DecodeError)
        } else if p.1 + p.0 > s.len() {
            Err(CodecError::ShortRead)
        } else {
            Ok((s.subrange(p.1 as int, (p.1 + p.0) as int), p.1 + p.0))
        },
    }
}

/// The frame of a record is read back exactly: the payload comes out
/// unchanged and nothing past the frame is consumed.
pub proof fn lemma_record_frame_round_trip(b: Seq<u8>, rest: Seq<u8>)
    requires
        b.len() <= u64::MAX,
    ensures
        dec_record_frame(enc_bytes(b) + rest) == Ok::<_, CodecError>((b, enc_bytes(b).len())),
{
    reveal(enc_bytes);
    let s = enc_bytes(b) + rest;
    lemma_varint_round_trip(b.len(), b + rest);
    assert(s =~= varint_enc(b.len()) + (b + rest));
    let k = varint_enc(b.len()).len();
    assert(varint_dec(s) == Some((b.len(), k)));
    assert(s.subrange(k as int, (k + b.len()) as int) =~= b);
}

/// Read a record frame at `off`: the payload bytes and the offset just
/// past the frame, or how it failed, exactly as `dec_record_frame` says.
pub fn read_record_frame(bytes: &Vec<u8>, off: usize) -> (r: Result<(Vec<u8>, usize), CodecError>)
    requires
        off <= bytes.len(),
    ensures
        match r {
            Ok(pair) => {
                &&& dec_record_frame(bytes@.skip(off as int)) == Ok::<_, CodecError>(
                    (pair.0@, (pair.1 - off) as nat),
                )
                &&& off < pair.1 <= bytes.len()
            },
            Err(e) => dec_record_frame(bytes@.skip(off as int)) == Err::<(Seq<u8>, nat), _>(e),
        },
{
    let ghost s = bytes@.skip(off as int);
    match varint_read(bytes, off) {
        None => {
            let short = crate::varint::all_continuation(bytes, off);
            proof {
                crate::varint::lemma_varint_dec_none_iff(s);
                assert(forall|i: int|
                    0 <= i < s.len() ==> s[i] == bytes@[off + i]);
                if short {
                    assert(forall|i: int| 0 <= i < s.len() ==> s[i] >= 128);
                    assert(varint_dec(s) is None);
                } else {
                    let j = choose|i: int| off <= i < bytes@.len() && !(bytes@[i] >= 128);
                    assert(s[j - off] < 128);
                    assert(varint_dec(s) is Some);
                }
            }
            if short {
                Err(CodecError::ShortRead)
            } else {
                Err(CodecError::DecodeError)
            }
        },
        Some((len, end)) => {
            if len > (bytes.len() - end) as u64 {
                proof {
                    assert((end - off) as nat + len as nat > s.len());
                }
                Err(CodecError::ShortRead)
            } else {
                let stop = end + (len as usize);
                let payload = copy_range(bytes, end, stop);
                proof {
                    let k = (end - off) as nat;
                    assert(s.subrange(k as int, (k + len as nat) as int) =~= bytes@.subrange(
                        end as int,
                        stop as int,
                    ));
                }
                Ok((payload, stop))
            }
        },
    }
}

pub open spec fn enc_request_record(r: RequestView) -> Seq<u8> {
    enc_bytes(enc_request(r))
}

pub open spec fn dec_request_record(s: Seq<u8>) -> Result<(RequestView, nat), CodecError> {
    match dec_record_frame(s) {
        Err(e) => Err(e),
        Ok(p) => match dec_request(p.0) {
            Some(q) => if q.1 == p.0.len() {
                Ok((q.0, p.1))
            } else {
                Err(CodecError::DecodeError)
            },
            None => Err(CodecError::DecodeError),
        },
    }
}

/// A framed request is decoded back to itself, whatever bytes follow the
/// record; the reader consumes exactly the record.
pub proof fn lemma_request_record_round_trip(r: RequestView, rest: Seq<u8>)
    requires
        enc_request(r).len() <= u64::MAX,
    ensures
        dec_request_record(enc_request_record(r) + rest) == Ok::<_, CodecError>(
            (r, enc_request_record(r).len()),
        ),
{
    lemma_record_frame_round_trip(enc_request(r), rest);
    lemma_request_round_trip(r, Seq::<u8>::empty());
    assert(enc_request(r) + Seq::<u8>::empty() =~= enc_request(r));
}

/// Encode one framed request record.
pub fn encode_request_record(r: &Request) -> (out: Vec<u8>)
    ensures
        out@ == enc_request_record(r@),
{
    let mut payload: Vec<u8> = Vec::new();
    write_request(&mut payload, r);
    let mut out: Vec<u8> = Vec::new();
    write_frame(&mut out, &payload);
    proof {
        assert(payload@ =~= enc_request(r@));
        assert(out@ =~= enc_bytes(enc_request(r@)));
    }
    out
}

/// Decode one framed request record at `off`, consuming exactly the
/// record; errors come exactly as `dec_request_record` classifies them.
pub fn decode_request_record(bytes: &Vec<u8>, off: usize) -> (r: Result<
    (Request, usize),
    CodecError,
>)
    requires
        off <= bytes.len(),
    ensures
        match r {
            Ok(pair) => {
                &&& dec_request_record(bytes@.skip(off as int)) == Ok::<_, CodecError>(
                    (pair.0@, (pair.1 - off) as nat),
                )
                &&& off < pair.1 <= bytes.len()
            },
            Err(e) => dec_request_record(bytes@.skip(off as int)) == Err::<(RequestView, nat), _>(
                e,
            ),
        },
{
    match read_record_frame(bytes, off) {
        Err(e) => Err(e),
        Ok((payload, end)) => {
            proof {
                assert(payload@.skip(0) =~= payload@);
            }
            match read_request(&payload, 0) {
                None => Err(CodecError::DecodeError),
                Some((req, used)) => {
                    if used == payload.len() {
                        Ok((req, end))
                    } else {
                        Err(CodecError::DecodeError)
                    }
                },
            }
        },
    }
}

pub open spec fn enc_response_record(accepted: bool) -> Seq<u8> {
    enc_bytes(enc_response(accepted))
}

pub open spec fn dec_response_record(s: Seq<u8>) -> Result<(bool, nat), CodecError> {
    match dec_record_frame(s) {
        Err(e) => Err(e),
        Ok(p) => match dec_response(p.0) {
            Some(q) => if q.1 == p.0.len() {
                Ok((q.0, p.1))
            } else {
                Err(CodecError::DecodeError)
            },
            None => Err(CodecError::DecodeError),
        },
    }
}

pub proof fn lemma_response_record_round_trip(accepted: bool, rest: Seq<u8>)
    ensures
        dec_response_record(enc_response_record(accepted) + rest) == Ok::<_, CodecError>(
            (accepted, enc_response_record(accepted).len()),
        ),
{
    lemma_record_frame_round_trip(enc_response(accepted), rest);
    lemma_bool_round_trip(accepted, Seq::<u8>::empty());
    assert(enc_bool(accepted) + Seq::<u8>::empty() =~= enc_bool(accepted));
}

/// Encode one framed transfer-request response.
pub fn encode_response_record(r: &TransferRequestResponse) -> (out: Vec<u8>)
    ensures
        out@ == enc_response_record(r.accepted),
{
    let mut payload: Vec<u8> = Vec::new();
    write_response(&mut payload, r);
    let mut out: Vec<u8> = Vec::new();
    write_frame(&mut out, &payload);
    out
}

/// Decode one framed transfer-request response at `off`.
pub fn decode_response_record(bytes: &Vec<u8>, off: usize) -> (r: Result<
    (TransferRequestResponse, usize),
    CodecError,
>)
    requires
        off <= bytes.len(),
    ensures
        match r {
            Ok(pair) => {
                &&& dec_response_record(bytes@.skip(off as int)) == Ok::<_, CodecError>(
                    (pair.0.accepted, (pair.1 - off) as nat),
                )
                &&& off < pair.1 <= bytes.len()
            },
            Err(e) => dec_response_record(bytes@.skip(off as int)) == Err::<(bool, nat), _>(e),
        },
{
    match read_record_frame(bytes, off) {
        Err(e) => Err(e),
        Ok((payload, end)) => {
            proof {
                assert(payload@.skip(0) =~= payload@);
            }
            match read_response(&payload, 0) {
                None => Err(CodecError::DecodeError),
                Some((resp, used)) => {
                    if used == payload.len() {
                        Ok((resp, end))
                    } else {
                        Err(CodecError::DecodeError)
                    }
                },
            }
        },
    }
}

pub open spec fn enc_discovery_record(m: DeviceDiscoveryMessageView) -> Seq<u8> {
    enc_bytes(enc_discovery_message(m))
}

pub open spec fn dec_discovery_record(s: Seq<u8>) -> Result<
    (DeviceDiscoveryMessageView, nat),
    CodecError,
> {
    match dec_record_frame(s) {
        Err(e) => Err(e),
        Ok(p) => match dec_discovery_message(p.0) {
            Some(q) => if q.1 == p.0.len() {
                Ok((q.0, p.1))
            } else {
                Err(CodecError::DecodeError)
            },
            None => Err(CodecError::DecodeError),
        },
    }
}

pub proof fn lemma_discovery_record_round_trip(m: DeviceDiscoveryMessageView, rest: Seq<u8>)
    requires
        enc_discovery_message(m).len() <= u64::MAX,
    ensures
        dec_discovery_record(enc_discovery_record(m) + rest) == Ok::<_, CodecError>(
            (m, enc_discovery_record(m).len()),
        ),
{
    lemma_record_frame_round_trip(enc_discovery_message(m), rest);
    lemma_discovery_message_round_trip(m, Seq::<u8>::empty());
    assert(enc_discovery_message(m) + Seq::<u8>::empty() =~= enc_discovery_message(m));
}

/// Encode one length-delimited discovery message, as the advertisement
/// characteristic serves it.
pub fn encode_discovery_record(m: &DeviceDiscoveryMessage) -> (out: Vec<u8>)
    ensures
        out@ == enc_discovery_record(m@),
{
    let mut payload: Vec<u8> = Vec::new();
    write_discovery_message(&mut payload, m);
    let mut out: Vec<u8> = Vec::new();
    write_frame(&mut out, &payload);
    out
}

/// Decode one length-delimited discovery message at `off`, never reading
/// past its declared length.
pub fn decode_discovery_record(bytes: &Vec<u8>, off: usize) -> (r: Result<
    (DeviceDiscoveryMessage, usize),
    CodecError,
>)
    requires
        off <= bytes.len(),
    ensures
        match r {
            Ok(pair) => {
                &&& dec_discovery_record(bytes@.skip(off as int)) == Ok::<_, CodecError>(
                    (pair.0@, (pair.1 - off) as nat),
                )
                &&& off < pair.1 <= bytes.len()
            },
            Err(e) => dec_discovery_record(bytes@.skip(off as int)) == Err::<
                (DeviceDiscoveryMessageView, nat),
                _,
            >(e),
        },
{
    match read_record_frame(bytes, off) {
        Err(e) => Err(e),
        Ok((payload, end)) => {
            proof {
                assert(payload@.skip(0) =~= payload@);
            }
            match read_discovery_message(&payload, 0) {
                None => Err(CodecError::DecodeError),
                Some((m, used)) => {
                    if used == payload.len() {
                        Ok((m, end))
                    } else {
                        Err(CodecError::DecodeError)
                    }
                },
            }
        },
    }
}

pub fn read_response(bytes: &Vec<u8>, off: usize) -> (r: Option<(TransferRequestResponse, usize)>)
    requires
        off <= bytes.len(),
    ensures
        match r {
            Some(pair) => {
                &&& dec_response(bytes@.skip(off as int)) == Some(
                    (pair.0.accepted, (pair.1 - off) as nat),
                )
                &&& off < pair.1 <= bytes.len()
            },
            None => dec_response(bytes@.skip(off as int)) is None,
        },
{
    match read_bool(bytes, off) {
        None => None,
        Some((accepted, end)) => Some((TransferRequestResponse { accepted }, end)),
    }
}

} // verus!
