//! Big-endian reads at an offset of a byte buffer.
//!
//! Every read is checked against the length of the buffer first: a read that
//! does not fit fails with [`ErrorKind::MissingBytes`] and the offset at which
//! it was tried.

use crate::error::{Error, ErrorKind};
use byteorder::ByteOrder;
use vstd::prelude::*;
use vstd::slice::slice_subrange;

verus! {

/// The outcome of decoding one item at an offset: the item and the offset
/// behind it, or the reason why there is none.
pub type Decoded<T> = Result<(T, int), ErrorKind>;

/// The 16-bit number whose big-endian form starts at `at`.
pub open spec fn u16_at(s: Seq<u8>, at: int) -> u16 {
    (s[at] as int * 0x100 + s[at + 1] as int) as u16
}

/// The 32-bit number whose big-endian form starts at `at`.
pub open spec fn u32_at(s: Seq<u8>, at: int) -> u32 {
    (s[at] as int * 0x100_0000 + s[at + 1] as int * 0x1_0000 + s[at + 2] as int * 0x100 + s[at
        + 3] as int) as u32
}

/// The 64-bit number whose big-endian form starts at `at`.
pub open spec fn u64_at(s: Seq<u8>, at: int) -> u64 {
    (u32_at(s, at) as int * 0x1_0000_0000 + u32_at(s, at + 4) as int) as u64
}

/// Whether `n` bytes can be read at `at`.
pub open spec fn fits(s: Seq<u8>, at: int, n: int) -> bool {
    0 <= at && 0 <= n && at + n <= s.len()
}

/// One byte at `at`.
pub open spec fn take_u8(s: Seq<u8>, at: int) -> Decoded<u8> {
    if fits(s, at, 1) {
        Ok((s[at], at + 1))
    } else {
        Err(ErrorKind::MissingBytes(at as usize))
    }
}

/// A big-endian 16-bit number at `at`.
pub open spec fn take_u16(s: Seq<u8>, at: int) -> Decoded<u16> {
    if fits(s, at, 2) {
        Ok((u16_at(s, at), at + 2))
    } else {
        Err(ErrorKind::MissingBytes(at as usize))
    }
}

/// A big-endian 32-bit number at `at`.
pub open spec fn take_u32(s: Seq<u8>, at: int) -> Decoded<u32> {
    if fits(s, at, 4) {
        Ok((u32_at(s, at), at + 4))
    } else {
        Err(ErrorKind::MissingBytes(at as usize))
    }
}

/// A big-endian 64-bit number at `at`.
pub open spec fn take_u64(s: Seq<u8>, at: int) -> Decoded<u64> {
    if fits(s, at, 8) {
        Ok((u64_at(s, at), at + 8))
    } else {
        Err(ErrorKind::MissingBytes(at as usize))
    }
}

/// The `n` bytes at `at`.
pub open spec fn take_bytes(s: Seq<u8>, at: int, n: int) -> Decoded<Seq<u8>> {
    if fits(s, at, n) {
        Ok((s.subrange(at, at + n), at + n))
    } else {
        Err(ErrorKind::MissingBytes(at as usize))
    }
}

/// Two big-endian 16-bit numbers, one behind the other, at `at`.
pub open spec fn take_u16_pair(s: Seq<u8>, at: int) -> Decoded<(u16, u16)> {
    match take_u16(s, at) {
        Err(e) => Err(e),
        Ok((first, mid)) => match take_u16(s, mid) {
            Err(e) => Err(e),
            Ok((second, end)) => Ok(((first, second), end)),
        },
    }
}

/// `n` items, each decoded by `item` where the one before it ended. The first
/// item that fails makes the whole fail with its error.
pub open spec fn repeat<T>(
    item: spec_fn(Seq<u8>, int) -> Decoded<T>,
    s: Seq<u8>,
    at: int,
    n: nat,
) -> Decoded<Seq<T>>
    decreases n,
{
    if n == 0 {
        Ok((Seq::empty(), at))
    } else {
        match repeat(item, s, at, (n - 1) as nat) {
            Err(e) => Err(e),
            Ok((items, mid)) => match item(s, mid) {
                Err(e) => Err(e),
                Ok((last, end)) => Ok((items.push(last), end)),
            },
        }
    }
}

/// Once the first `k` items fail, any greater number of items fails in the
/// same way.
pub proof fn lemma_repeat_failure_stays<T>(
    item: spec_fn(Seq<u8>, int) -> Decoded<T>,
    s: Seq<u8>,
    at: int,
    k: nat,
    n: nat,
)
    requires
        k <= n,
        repeat(item, s, at, k) is Err,
    ensures
        repeat(item, s, at, n) == repeat(item, s, at, k),
    decreases n,
{
    if k < n {
        lemma_repeat_failure_stays(item, s, at, k, (n - 1) as nat);
    }
}

/// `n` items that decode are `n` items.
pub proof fn lemma_repeat_length<T>(
    item: spec_fn(Seq<u8>, int) -> Decoded<T>,
    s: Seq<u8>,
    at: int,
    n: nat,
)
    ensures
        repeat(item, s, at, n) matches Ok((items, end)) ==> items.len() == n,
    decreases n,
{
    if n > 0 {
        lemma_repeat_length(item, s, at, (n - 1) as nat);
    }
}

/// The models of the items of a sequence, in order.
pub open spec fn views<T: View>(items: Seq<T>) -> Seq<T::V> {
    items.map_values(|item: T| item@)
}

/// Adding an item at the end adds its model at the end.
pub proof fn lemma_views_push<T: View>(items: Seq<T>, last: T)
    ensures
        views(items.push(last)) == views(items).push(last@),
{
    assert(views(items.push(last)) =~= views(items).push(last@));
}

/// No items have no models.
pub proof fn lemma_views_empty<T: View>()
    ensures
        views(Seq::<T>::empty()) == Seq::<T::V>::empty(),
{
    assert(views(Seq::<T>::empty()) =~= Seq::<T::V>::empty());
}

/// A 16-bit count at `at`, and behind it that many items, each decoded by
/// `item` where the one before it ended.
pub open spec fn counted<T>(
    item: spec_fn(Seq<u8>, int) -> Decoded<T>,
    s: Seq<u8>,
    at: int,
) -> Decoded<(u16, Seq<T>)> {
    match take_u16(s, at) {
        Err(e) => Err(e),
        Ok((count, first)) => match repeat(item, s, first, count as nat) {
            Err(e) => Err(e),
            Ok((items, end)) => Ok(((count, items), end)),
        },
    }
}

/// [`take_u16`] as a value, for [`repeat`].
pub open spec fn u16_item() -> spec_fn(Seq<u8>, int) -> Decoded<u16> {
    |s: Seq<u8>, at: int| take_u16(s, at)
}

/// Whether an executable decoder returned what the model says: the same item
/// and offset, or an error of the same kind.
pub open spec fn agrees<T>(r: Result<(T, usize), Error>, expected: Decoded<T>) -> bool {
    match r {
        Ok((item, next)) => expected == Ok::<(T, int), ErrorKind>((item, next as int)),
        Err(e) => expected == Err::<(T, int), ErrorKind>(e@),
    }
}

/// Reads the first two bytes of `bytes` as a number with
/// `byteorder::BigEndian::read_u16`: the first byte counts 256 times the
/// second. The outside function panics on fewer than two bytes.
#[verifier::external_body]
fn read_u16(bytes: &[u8]) -> (r: u16)
    requires
        bytes@.len() >= 2,
    ensures
        r == u16_at(bytes@, 0),
{
    byteorder::BigEndian::read_u16(bytes)
}

/// Reads the first four bytes of `bytes` as a number with
/// `byteorder::BigEndian::read_u32`, the most significant byte first. The
/// outside function panics on fewer than four bytes.
#[verifier::external_body]
fn read_u32(bytes: &[u8]) -> (r: u32)
    requires
        bytes@.len() >= 4,
    ensures
        r == u32_at(bytes@, 0),
{
    byteorder::BigEndian::read_u32(bytes)
}

/// Reads the first eight bytes of `bytes` as a number with
/// `byteorder::BigEndian::read_u64`, the most significant byte first. The
/// outside function panics on fewer than eight bytes.
#[verifier::external_body]
fn read_u64(bytes: &[u8]) -> (r: u64)
    requires
        bytes@.len() >= 8,
    ensures
        r == u64_at(bytes@, 0),
{
    byteorder::BigEndian::read_u64(bytes)
}

/// Borrows the `n` bytes at `at`.
pub fn be_bytes<'a>(bytes: &'a [u8], at: usize, n: usize) -> (r: Result<(&'a [u8], usize), Error>)
    ensures
        match r {
            Ok((part, next)) => take_bytes(bytes@, at as int, n as int) == Ok::<
                (Seq<u8>, int),
                ErrorKind,
            >((part@, next as int)),
            Err(e) => take_bytes(bytes@, at as int, n as int) == Err::<(Seq<u8>, int), ErrorKind>(
                e@,
            ),
        },
{
    let len: usize = bytes.len();
    if at <= len && n <= len - at {
        Ok((slice_subrange(bytes, at, at + n), at + n))
    } else {
        Err(Error::new(ErrorKind::MissingBytes(at)))
    }
}

/// Reads one byte at `at`.
pub fn be_u8(bytes: &[u8], at: usize) -> (r: Result<(u8, usize), Error>)
    ensures
        agrees(r, take_u8(bytes@, at as int)),
{
    if at < bytes.len() {
        Ok((bytes[at], at + 1))
    } else {
        Err(Error::new(ErrorKind::MissingBytes(at)))
    }
}

/// Reads a big-endian 16-bit number at `at`.
pub fn be_u16(bytes: &[u8], at: usize) -> (r: Result<(u16, usize), Error>)
    ensures
        agrees(r, take_u16(bytes@, at as int)),
{
    let (part, next) = be_bytes(bytes, at, 2)?;
    Ok((read_u16(part), next))
}

/// Reads two big-endian 16-bit numbers, one behind the other, at `at`.
pub fn be_u16_pair(bytes: &[u8], at: usize) -> (r: Result<((u16, u16), usize), Error>)
    ensures
        agrees(r, take_u16_pair(bytes@, at as int)),
{
    let (first, mid) = be_u16(bytes, at)?;
    let (second, end) = be_u16(bytes, mid)?;
    Ok(((first, second), end))
}

/// Reads `count` big-endian 16-bit numbers, one behind the other, from `at`
/// on.
pub fn be_u16s(bytes: &[u8], at: usize, count: u16) -> (r: Result<(Vec<u16>, usize), Error>)
    ensures
        match r {
            Ok((items, next)) => repeat(u16_item(), bytes@, at as int, count as nat) == Ok::<
                (Seq<u16>, int),
                ErrorKind,
            >((items@, next as int)),
            Err(e) => repeat(u16_item(), bytes@, at as int, count as nat) == Err::<
                (Seq<u16>, int),
                ErrorKind,
            >(e@),
        },
{
    let mut items: Vec<u16> = Vec::new();
    let mut pos: usize = at;
    let mut i: u16 = 0;
    while i < count
        invariant
            i <= count,
            repeat(u16_item(), bytes@, at as int, i as nat) == Ok::<(Seq<u16>, int), ErrorKind>(
                (items@, pos as int),
            ),
        decreases count - i,
    {
        match be_u16(bytes, pos) {
            Ok((item, next)) => {
                items.push(item);
                pos = next;
            },
            Err(e) => {
                proof {
                    lemma_repeat_failure_stays(
                        u16_item(),
                        bytes@,
                        at as int,
                        (i + 1) as nat,
                        count as nat,
                    );
                }
                return Err(e);
            },
        }
        i += 1;
    }
    Ok((items, pos))
}

/// Reads a big-endian 32-bit number at `at`.
pub fn be_u32(bytes: &[u8], at: usize) -> (r: Result<(u32, usize), Error>)
    ensures
        agrees(r, take_u32(bytes@, at as int)),
{
    let (part, next) = be_bytes(bytes, at, 4)?;
    Ok((read_u32(part), next))
}

/// Reads a big-endian 64-bit number at `at`.
pub fn be_u64(bytes: &[u8], at: usize) -> (r: Result<(u64, usize), Error>)
    ensures
        agrees(r, take_u64(bytes@, at as int)),
{
    let (part, next) = be_bytes(bytes, at, 8)?;
    Ok((read_u64(part), next))
}

} // verus!
