//! The building blocks of the byte format in which listings are stored:
//! integers, byte strings, texts, flags and lists, each with the proof that
//! reading gives back what was written.

use vstd::prelude::*;
use vstd::bytes::{
    lemma_auto_spec_u64_to_from_le_bytes, spec_u64_from_le_bytes, spec_u64_to_le_bytes,
    u64_from_le_bytes, u64_to_le_bytes,
};
use vstd::slice::slice_subrange;
use vstd::utf8::{decode_utf8, encode_utf8, encode_utf8_decode_utf8, encode_utf8_valid_utf8, valid_utf8};
use crate::bytes::{bytes_append, bytes_slice};
use crate::view::views;
use crate::timestamp::Timestamp;

verus! {

/// What reading gives: the value and the bytes that follow it.
pub type Parsed<T> = Option<(T, Seq<u8>)>;

/// A value with a place in the byte format.
pub trait Wire: View + Sized {
    /// Whether the value can be written: every length in it fits in 64 bits.
    spec fn fits(v: Self::V) -> bool;

    /// The bytes that stand for the value.
    spec fn enc(v: Self::V) -> Seq<u8>;

    /// The value at the start of the bytes, and the bytes after it.
    spec fn dec(s: Seq<u8>) -> Parsed<Self::V>;

    /// Reading what was written gives the value back and stops behind it.
    proof fn lemma_round_trip(v: Self::V, rest: Seq<u8>)
        requires
            Self::fits(v),
        ensures
            Self::dec(Self::enc(v) + rest) == Some((v, rest)),
    ;

    /// Appends the value's bytes to `out`. A value in memory can always
    /// be written.
    fn write(&self, out: &mut Vec<u8>)
        ensures
            final(out)@ == old(out)@ + Self::enc(self@),
            Self::fits(self@),
    ;

    /// Reads a value at `pos`, and says where the bytes after it begin.
    fn read(bytes: &Vec<u8>, pos: usize) -> (r: Option<(Self, usize)>)
        requires
            pos <= bytes.len(),
        ensures
            match r {
                Some((x, end)) => pos <= end <= bytes.len() && Self::dec(bytes@.skip(pos as int))
                    == Some((x@, bytes@.skip(end as int))),
                None => Self::dec(bytes@.skip(pos as int)) is None,
            },
    ;
}

// Integers: eight bytes, least significant first.

pub open spec fn enc_u64(v: u64) -> Seq<u8> {
    spec_u64_to_le_bytes(v)
}

pub open spec fn dec_u64(s: Seq<u8>) -> Parsed<u64> {
    if s.len() >= 8 {
        Some((spec_u64_from_le_bytes(s.subrange(0, 8)), s.skip(8)))
    } else {
        None
    }
}

pub proof fn lemma_u64(v: u64, rest: Seq<u8>)
    ensures
        enc_u64(v).len() == 8,
        dec_u64(enc_u64(v) + rest) == Some((v, rest)),
{
    lemma_auto_spec_u64_to_from_le_bytes();
    assert((enc_u64(v) + rest).subrange(0, 8) =~= enc_u64(v));
    assert((enc_u64(v) + rest).skip(8) =~= rest);
}

pub fn write_u64(out: &mut Vec<u8>, v: u64)
    ensures
        final(out)@ == old(out)@ + enc_u64(v),
{
    let b = u64_to_le_bytes(v);
    bytes_append(out, &b);
}

pub fn read_u64(bytes: &Vec<u8>, pos: usize) -> (r: Option<(u64, usize)>)
    requires
        pos <= bytes.len(),
    ensures
        match r {
            Some((v, end)) => pos <= end <= bytes.len() && dec_u64(bytes@.skip(pos as int))
                == Some((v, bytes@.skip(end as int))),
            None => dec_u64(bytes@.skip(pos as int)) is None,
        },
{
    if bytes.len() - pos < 8 {
        return None;
    }
    let v = u64_from_le_bytes(slice_subrange(bytes.as_slice(), pos, pos + 8));
    assert(bytes@.skip(pos as int).subrange(0, 8) =~= bytes@.subrange(pos as int, pos + 8));
    assert(bytes@.skip(pos as int).skip(8) =~= bytes@.skip(pos + 8));
    Some((v, pos + 8))
}

// Byte strings: the length as an integer, then the bytes.

pub open spec fn enc_bytes(b: Seq<u8>) -> Seq<u8> {
    enc_u64(b.len() as u64) + b
}

pub open spec fn dec_bytes(s: Seq<u8>) -> Parsed<Seq<u8>> {
    match dec_u64(s) {
        Some((n, r)) => if r.len() >= n {
            Some((r.subrange(0, n as int), r.skip(n as int)))
        } else {
            None
        },
        None => None,
    }
}

pub proof fn lemma_bytes(b: Seq<u8>, rest: Seq<u8>)
    requires
        b.len() <= u64::MAX,
    ensures
        dec_bytes(enc_bytes(b) + rest) == Some((b, rest)),
{
    lemma_u64(b.len() as u64, b + rest);
    assert(enc_bytes(b) + rest =~= enc_u64(b.len() as u64) + (b + rest));
    assert((b + rest).subrange(0, b.len() as int) =~= b);
    assert((b + rest).skip(b.len() as int) =~= rest);
}

pub fn write_bytes(out: &mut Vec<u8>, b: &Vec<u8>)
    ensures
        final(out)@ == old(out)@ + enc_bytes(b@),
        b@.len() <= u64::MAX,
{
    write_u64(out, b.len() as u64);
    bytes_append(out, b);
    assert(out@ =~= old(out)@ + enc_bytes(b@));
}

pub fn read_bytes(bytes: &Vec<u8>, pos: usize) -> (r: Option<(Vec<u8>, usize)>)
    requires
        pos <= bytes.len(),
    ensures
        match r {
            Some((v, end)) => pos <= end <= bytes.len() && dec_bytes(bytes@.skip(pos as int))
                == Some((v@, bytes@.skip(end as int))),
            None => dec_bytes(bytes@.skip(pos as int)) is None,
        },
{
    match read_u64(bytes, pos) {
        None => None,
        Some((n, start)) => {
            if n > (bytes.len() - start) as u64 {
                return None;
            }
            let end: usize = start + n as usize;
            let v = bytes_slice(bytes, start, end);
            assert(bytes@.skip(start as int).subrange(0, n as int) =~= v@);
            assert(bytes@.skip(start as int).skip(n as int) =~= bytes@.skip(end as int));
            Some((v, end))
        },
    }
}

// Texts: the byte string of their UTF-8 form.

pub open spec fn enc_text(t: Seq<char>) -> Seq<u8> {
    enc_bytes(encode_utf8(t))
}

pub open spec fn dec_text(s: Seq<u8>) -> Parsed<Seq<char>> {
    match dec_bytes(s) {
        Some((b, r)) => if valid_utf8(b) {
            Some((decode_utf8(b), r))
        } else {
            None
        },
        None => None,
    }
}

pub proof fn lemma_text(t: Seq<char>, rest: Seq<u8>)
    requires
        encode_utf8(t).len() <= u64::MAX,
    ensures
        dec_text(enc_text(t) + rest) == Some((t, rest)),
{
    lemma_bytes(encode_utf8(t), rest);
    encode_utf8_valid_utf8(t);
    encode_utf8_decode_utf8(t);
}

/// Makes a text of its UTF-8 form with `String::from_utf8`, which accepts
/// exactly the valid forms and keeps the bytes as they are.
#[verifier::external_body]
pub(crate) fn text_from_utf8(bytes: Vec<u8>) -> (r: Option<String>)
    ensures
        r is Some <==> valid_utf8(bytes@),
        r matches Some(t) ==> encode_utf8(t@) == bytes@,
{
    String::from_utf8(bytes).ok()
}

pub fn write_text(out: &mut Vec<u8>, t: &String)
    ensures
        final(out)@ == old(out)@ + enc_text(t@),
        encode_utf8(t@).len() <= u64::MAX,
{
    let raw = t.as_str().as_bytes();
    write_u64(out, raw.len() as u64);
    let mut i: usize = 0;
    let ghost mid = out@;
    while i < raw.len()
        invariant
            i <= raw.len(),
            out@ == mid + raw@.subrange(0, i as int),
        decreases raw.len() - i,
    {
        out.push(raw[i]);
        assert(out@ =~= mid + raw@.subrange(0, i + 1));
        i += 1;
    }
    assert(raw@.subrange(0, raw.len() as int) =~= raw@);
    assert(out@ =~= old(out)@ + enc_text(t@));
}

pub fn read_text(bytes: &Vec<u8>, pos: usize) -> (r: Option<(String, usize)>)
    requires
        pos <= bytes.len(),
    ensures
        match r {
            Some((v, end)) => pos <= end <= bytes.len() && dec_text(bytes@.skip(pos as int))
                == Some((v@, bytes@.skip(end as int))),
            None => dec_text(bytes@.skip(pos as int)) is None,
        },
{
    match read_bytes(bytes, pos) {
        None => None,
        Some((raw, end)) => {
            let ghost form = raw@;
            match text_from_utf8(raw) {
                None => None,
                Some(t) => {
                    proof {
                        encode_utf8_decode_utf8(t@);
                    }
                    Some((t, end))
                },
            }
        },
    }
}

// Flags and tags: one byte.

pub open spec fn enc_byte(b: u8) -> Seq<u8> {
    seq![b]
}

pub open spec fn dec_byte(s: Seq<u8>) -> Parsed<u8> {
    if s.len() >= 1 {
        Some((s[0], s.skip(1)))
    } else {
        None
    }
}

pub proof fn lemma_byte(b: u8, rest: Seq<u8>)
    ensures
        dec_byte(enc_byte(b) + rest) == Some((b, rest)),
{
    assert((enc_byte(b) + rest).skip(1) =~= rest);
}

pub fn write_byte(out: &mut Vec<u8>, b: u8)
    ensures
        final(out)@ == old(out)@ + enc_byte(b),
{
    out.push(b);
    assert(out@ =~= old(out)@ + enc_byte(b));
}

pub fn read_byte(bytes: &Vec<u8>, pos: usize) -> (r: Option<(u8, usize)>)
    requires
        pos <= bytes.len(),
    ensures
        match r {
            Some((v, end)) => pos <= end <= bytes.len() && dec_byte(bytes@.skip(pos as int))
                == Some((v, bytes@.skip(end as int))),
            None => dec_byte(bytes@.skip(pos as int)) is None,
        },
{
    if pos >= bytes.len() {
        return None;
    }
    assert(bytes@.skip(pos as int).skip(1) =~= bytes@.skip(pos + 1));
    Some((bytes[pos], pos + 1))
}

pub open spec fn enc_flag(b: bool) -> Seq<u8> {
    enc_byte(if b { 1u8 } else { 0u8 })
}

pub open spec fn dec_flag(s: Seq<u8>) -> Parsed<bool> {
    match dec_byte(s) {
        Some((b, r)) => if b == 0 {
            Some((false, r))
        } else if b == 1 {
            Some((true, r))
        } else {
            None
        },
        None => None,
    }
}

pub proof fn lemma_flag(b: bool, rest: Seq<u8>)
    ensures
        dec_flag(enc_flag(b) + rest) == Some((b, rest)),
{
    lemma_byte(if b { 1u8 } else { 0u8 }, rest);
}

pub fn write_flag(out: &mut Vec<u8>, b: bool)
    ensures
        final(out)@ == old(out)@ + enc_flag(b),
{
    write_byte(out, if b { 1u8 } else { 0u8 });
}

pub fn read_flag(bytes: &Vec<u8>, pos: usize) -> (r: Option<(bool, usize)>)
    requires
        pos <= bytes.len(),
    ensures
        match r {
            Some((v, end)) => pos <= end <= bytes.len() && dec_flag(bytes@.skip(pos as int))
                == Some((v, bytes@.skip(end as int))),
            None => dec_flag(bytes@.skip(pos as int)) is None,
        },
{
    match read_byte(bytes, pos) {
        None => None,
        Some((b, end)) => {
            if b == 0 {
                Some((false, end))
            } else if b == 1 {
                Some((true, end))
            } else {
                None
            }
        },
    }
}

// Points in time: seconds and nanoseconds, each moved up so that the
// smallest value is written as zero.

pub open spec fn enc_time(t: Timestamp) -> Seq<u8> {
    enc_u64((t.sec + 0x8000_0000_0000_0000) as u64) + enc_u64((t.nsec + 0x8000_0000) as u64)
}

pub open spec fn dec_time(s: Seq<u8>) -> Parsed<Timestamp> {
    match dec_u64(s) {
        Some((a, r)) => match dec_u64(r) {
            Some((b, r2)) => if b < 0x1_0000_0000 {
                Some(
                    (
                        Timestamp {
                            sec: (a - 0x8000_0000_0000_0000) as i64,
                            nsec: (b - 0x8000_0000) as i32,
                        },
                        r2,
                    ),
                )
            } else {
                None
            },
            None => None,
        },
        None => None,
    }
}

pub proof fn lemma_time(t: Timestamp, rest: Seq<u8>)
    ensures
        dec_time(enc_time(t) + rest) == Some((t, rest)),
{
    let a = (t.sec + 0x8000_0000_0000_0000) as u64;
    let b = (t.nsec + 0x8000_0000) as u64;
    lemma_u64(a, enc_u64(b) + rest);
    lemma_u64(b, rest);
    assert(enc_time(t) + rest =~= enc_u64(a) + (enc_u64(b) + rest));
}

pub fn write_time(out: &mut Vec<u8>, t: Timestamp)
    ensures
        final(out)@ == old(out)@ + enc_time(t),
{
    let a: u64 = if t.sec >= 0 {
        t.sec as u64 + 0x8000_0000_0000_0000
    } else {
        (t.sec + i64::MAX + 1) as u64
    };
    let b: u64 = (t.nsec as i64 + 0x8000_0000) as u64;
    write_u64(out, a);
    write_u64(out, b);
    assert(out@ =~= old(out)@ + enc_time(t));
}

pub fn read_time(bytes: &Vec<u8>, pos: usize) -> (r: Option<(Timestamp, usize)>)
    requires
        pos <= bytes.len(),
    ensures
        match r {
            Some((v, end)) => pos <= end <= bytes.len() && dec_time(bytes@.skip(pos as int))
                == Some((v, bytes@.skip(end as int))),
            None => dec_time(bytes@.skip(pos as int)) is None,
        },
{
    match read_u64(bytes, pos) {
        None => None,
        Some((a, mid)) => match read_u64(bytes, mid) {
            None => None,
            Some((b, end)) => {
                if b >= 0x1_0000_0000 {
                    return None;
                }
                let sec: i64 = if a >= 0x8000_0000_0000_0000 {
                    (a - 0x8000_0000_0000_0000) as i64
                } else {
                    a as i64 - i64::MAX - 1
                };
                let nsec: i32 = (b as i64 - 0x8000_0000) as i32;
                Some((Timestamp { sec, nsec }, end))
            },
        },
    }
}

// Lists: the number of items as an integer, then the items in order.

pub open spec fn enc_items<T: Wire>(items: Seq<T::V>) -> Seq<u8>
    decreases items.len(),
{
    if items.len() == 0 {
        Seq::<u8>::empty()
    } else {
        enc_items::<T>(items.drop_last()) + T::enc(items.last())
    }
}

pub open spec fn dec_items<T: Wire>(s: Seq<u8>, n: nat) -> Parsed<Seq<T::V>>
    decreases n,
{
    if n == 0 {
        Some((Seq::<T::V>::empty(), s))
    } else {
        match T::dec(s) {
            Some((x, r)) => match dec_items::<T>(r, (n - 1) as nat) {
                Some((xs, r2)) => Some((seq![x] + xs, r2)),
                None => None,
            },
            None => None,
        }
    }
}

pub open spec fn enc_list<T: Wire>(items: Seq<T::V>) -> Seq<u8> {
    enc_u64(items.len() as u64) + enc_items::<T>(items)
}

pub open spec fn dec_list<T: Wire>(s: Seq<u8>) -> Parsed<Seq<T::V>> {
    match dec_u64(s) {
        Some((n, r)) => dec_items::<T>(r, n as nat),
        None => None,
    }
}

/// Whether a list can be written: its length fits, and so does each item.
pub open spec fn list_fits<T: Wire>(items: Seq<T::V>) -> bool {
    &&& items.len() <= u64::MAX
    &&& forall|i: int| 0 <= i < items.len() ==> T::fits(#[trigger] items[i])
}

/// The bytes of a list begin with the bytes of its first item.
pub proof fn lemma_items_front<T: Wire>(items: Seq<T::V>)
    requires
        items.len() > 0,
    ensures
        enc_items::<T>(items) == T::enc(items[0]) + enc_items::<T>(items.drop_first()),
    decreases items.len(),
{
    if items.len() == 1 {
        assert(items.drop_last() =~= Seq::<T::V>::empty());
        assert(items.drop_first() =~= Seq::<T::V>::empty());
        assert(enc_items::<T>(items) =~= T::enc(items[0]) + enc_items::<T>(items.drop_first()));
    } else {
        lemma_items_front::<T>(items.drop_last());
        assert(items.drop_last().drop_first() =~= items.drop_first().drop_last());
        assert(items.drop_first().last() == items.last());
        assert(enc_items::<T>(items) =~= T::enc(items[0]) + enc_items::<T>(items.drop_first()));
    }
}

pub proof fn lemma_items<T: Wire>(items: Seq<T::V>, rest: Seq<u8>)
    requires
        forall|i: int| 0 <= i < items.len() ==> T::fits(#[trigger] items[i]),
    ensures
        dec_items::<T>(enc_items::<T>(items) + rest, items.len()) == Some((items, rest)),
    decreases items.len(),
{
    if items.len() == 0 {
        assert(enc_items::<T>(items) + rest =~= rest);
        assert(items =~= Seq::<T::V>::empty());
    } else {
        let tail = items.drop_first();
        lemma_items_front::<T>(items);
        assert(enc_items::<T>(items) + rest =~= T::enc(items[0]) + (enc_items::<T>(tail) + rest));
        T::lemma_round_trip(items[0], enc_items::<T>(tail) + rest);
        lemma_items::<T>(tail, rest);
        assert(seq![items[0]] + tail =~= items);
    }
}

pub proof fn lemma_list<T: Wire>(items: Seq<T::V>, rest: Seq<u8>)
    requires
        list_fits::<T>(items),
    ensures
        dec_list::<T>(enc_list::<T>(items) + rest) == Some((items, rest)),
{
    lemma_u64(items.len() as u64, enc_items::<T>(items) + rest);
    lemma_items::<T>(items, rest);
    assert(enc_list::<T>(items) + rest =~= enc_u64(items.len() as u64) + (enc_items::<T>(items)
        + rest));
}

pub fn write_list<T: Wire>(out: &mut Vec<u8>, items: &Vec<T>)
    ensures
        final(out)@ == old(out)@ + enc_list::<T>(views(items@)),
        list_fits::<T>(views(items@)),
{
    write_u64(out, items.len() as u64);
    let ghost mid = out@;
    let mut i: usize = 0;
    assert(views(items@).subrange(0, 0) =~= Seq::<T::V>::empty());
    assert(out@ =~= mid + enc_items::<T>(views(items@).subrange(0, 0)));
    while i < items.len()
        invariant
            i <= items.len(),
            out@ == mid + enc_items::<T>(views(items@).subrange(0, i as int)),
            forall|j: int| 0 <= j < i ==> T::fits(#[trigger] views(items@)[j]),
        decreases items.len() - i,
    {
        items[i].write(out);
        proof {
            let upto = views(items@).subrange(0, i + 1);
            assert(upto.drop_last() =~= views(items@).subrange(0, i as int));
            assert(upto.last() == items@[i as int]@);
            assert(out@ =~= mid + enc_items::<T>(upto));
        }
        i += 1;
    }
    assert(views(items@).subrange(0, items.len() as int) =~= views(items@));
    assert(out@ =~= old(out)@ + enc_list::<T>(views(items@)));
}

pub fn read_list<T: Wire>(bytes: &Vec<u8>, pos: usize) -> (r: Option<(Vec<T>, usize)>)
    requires
        pos <= bytes.len(),
    ensures
        match r {
            Some((v, end)) => pos <= end <= bytes.len() && dec_list::<T>(bytes@.skip(pos as int))
                == Some((views(v@), bytes@.skip(end as int))),
            None => dec_list::<T>(bytes@.skip(pos as int)) is None,
        },
{
    match read_u64(bytes, pos) {
        None => None,
        Some((n, start)) => {
            let mut items: Vec<T> = Vec::new();
            let mut at: usize = start;
            let mut i: u64 = 0;
            assert(views(items@) =~= Seq::<T::V>::empty());
            while i < n
                invariant
                    i <= n,
                    pos <= start <= at <= bytes.len(),
                    items.len() == i,
                    dec_list::<T>(bytes@.skip(pos as int)) == dec_items::<T>(
                        bytes@.skip(start as int),
                        n as nat,
                    ),
                    dec_items::<T>(bytes@.skip(start as int), n as nat) == match dec_items::<T>(
                        bytes@.skip(at as int),
                        (n - i) as nat,
                    ) {
                        Some((xs, r)) => Some((views(items@) + xs, r)),
                        None => None,
                    },
                decreases n - i,
            {
                let ghost before = views(items@);
                match T::read(bytes, at) {
                    None => {
                        assert(dec_items::<T>(bytes@.skip(at as int), (n - i) as nat) is None);
                        return None;
                    },
                    Some((x, next)) => {
                        proof {
                            let tail = dec_items::<T>(bytes@.skip(next as int), (n - i - 1) as nat);
                            if tail is Some {
                                assert(before + (seq![x@] + tail.unwrap().0) =~= before.push(x@)
                                    + tail.unwrap().0);
                            }
                        }
                        items.push(x);
                        assert(views(items@) =~= before.push(x@));
                        at = next;
                        i += 1;
                    },
                }
            }
            assert(views(items@) + Seq::<T::V>::empty() =~= views(items@));
            Some((items, at))
        },
    }
}

} // verus!
