use vstd::prelude::*;
use vstd::string::StringSliceAdditionalSpecFns;
use vstd::utf8::{encode_utf8, valid_utf8};
use vstd::arithmetic::div_mod::{lemma_mod_breakdown, lemma_mod_mod, lemma_mod_multiples_vanish};

verus! {

/// A named-binary-tag value.
#[derive(Debug, PartialEq)]
pub enum NbtTag {
    End,
    Byte(i8),
    Short(i16),
    Int(i32),
    Long(i64),
    String(String),
    Compound(NbtCompound),
}

/// Named tags in the order they were given.
#[derive(Debug, PartialEq)]
pub struct NbtCompound {
    pub entries: Vec<(String, NbtTag)>,
}

/// Why a tag could not be written or read.
#[derive(Clone, Copy, Debug, PartialEq, Eq, Structural)]
pub enum NbtError {
    /// A string needs more than 65535 bytes.
    StringTooLong,
    /// The input ended inside a tag.
    UnexpectedEnd,
    /// A tag type byte that is not known.
    UnknownTagType,
    /// String bytes that are not UTF-8.
    InvalidString,
}

/// Bytes read one after another from the front.
pub struct Cursor {
    data: Vec<u8>,
    pos: usize,
}

impl Cursor {
    pub closed spec fn remaining(&self) -> Seq<u8> {
        self.data@.subrange(self.pos as int, self.data@.len() as int)
    }

    pub closed spec fn wf(&self) -> bool {
        self.pos <= self.data@.len()
    }

    /// A cursor at the start of `data`.
    pub fn new(data: &[u8]) -> (r: Self)
        ensures
            r.wf(),
            r.remaining() == data@,
    {
        let v = vstd::slice::slice_to_vec(data);
        let r = Cursor { data: v, pos: 0 };
        assert(r.remaining() =~= data@);
        r
    }
}

/// The type byte of a tag.
pub open spec fn type_id(t: NbtTag) -> u8 {
    match t {
        NbtTag::End => 0,
        NbtTag::Byte(_) => 1,
        NbtTag::Short(_) => 2,
        NbtTag::Int(_) => 3,
        NbtTag::Long(_) => 4,
        NbtTag::String(_) => 8,
        NbtTag::Compound(_) => 10,
    }
}

/// `v` as `n` bytes, most significant first (only the low `n` bytes of `v` count).
pub open spec fn be_bytes(v: nat, n: nat) -> Seq<u8>
    decreases n,
{
    if n == 0 {
        Seq::empty()
    } else {
        be_bytes(v / 256, (n - 1) as nat).push((v % 256) as u8)
    }
}

/// A signed value in two's complement over 64 bits.
pub open spec fn wrap64(v: int) -> nat {
    (v % 0x1_0000_0000_0000_0000) as nat
}

pub open spec fn pow256(n: nat) -> nat
    decreases n,
{
    if n == 0 { 1 } else { 256 * pow256((n - 1) as nat) }
}

proof fn lemma_pow256_small(k: nat)
    requires
        k <= 7,
    ensures
        1 <= pow256(k) <= 0x100_0000_0000_0000,
{
    reveal_with_fuel(pow256, 8);
    assert(pow256(0) == 1);
    assert(pow256(1) == 256);
    assert(pow256(2) == 65536);
    assert(pow256(3) == 16777216);
    assert(pow256(4) == 4294967296);
    assert(pow256(5) == 1099511627776);
    assert(pow256(6) == 281474976710656);
    assert(pow256(7) == 72057594037927936);
}

/// Only the low `n` bytes of a number reach its encoding.
proof fn lemma_be_bytes_mod(x: nat, y: nat, n: nat)
    requires
        x % pow256(n) == y % pow256(n),
    ensures
        be_bytes(x, n) == be_bytes(y, n),
    decreases n,
{
    if n > 0 {
        let p = pow256((n - 1) as nat);
        lemma_pow_pos((n - 1) as nat);
        lemma_mod_mod(x as int, 256, p as int);
        lemma_mod_mod(y as int, 256, p as int);
        lemma_mod_breakdown(x as int, 256, p as int);
        lemma_mod_breakdown(y as int, 256, p as int);
        lemma_be_bytes_mod(x / 256, y / 256, (n - 1) as nat);
    }
}

proof fn lemma_pow_pos(n: nat)
    ensures
        pow256(n) > 0,
    decreases n,
{
    if n > 0 {
        lemma_pow_pos((n - 1) as nat);
    }
}

/// A string as its byte length (two bytes) and its UTF-8 bytes.
pub open spec fn str_enc(s: Seq<char>) -> Seq<u8> {
    be_bytes(encode_utf8(s).len(), 2) + encode_utf8(s)
}

pub open spec fn str_fits(s: Seq<char>) -> bool {
    encode_utf8(s).len() <= 0xffff
}

/// The bytes of a tag's payload.
pub open spec fn payload_enc(t: NbtTag) -> Seq<u8>
    decreases t,
{
    match t {
        NbtTag::End => Seq::empty(),
        NbtTag::Byte(v) => be_bytes(wrap64(v as int), 1),
        NbtTag::Short(v) => be_bytes(wrap64(v as int), 2),
        NbtTag::Int(v) => be_bytes(wrap64(v as int), 4),
        NbtTag::Long(v) => be_bytes(wrap64(v as int), 8),
        NbtTag::String(s) => str_enc(s@),
        NbtTag::Compound(c) => entries_enc(c.entries@) + seq![0u8],
    }
}

/// The bytes of named tags: for each, its type byte, its name and its payload.
pub open spec fn entries_enc(es: Seq<(String, NbtTag)>) -> Seq<u8>
    decreases es,
{
    if es.len() == 0 {
        Seq::empty()
    } else {
        entries_enc(es.drop_last()) + seq![type_id(es.last().1)] + str_enc(es.last().0@)
            + payload_enc(es.last().1)
    }
}

/// Every string in the tag, names included, fits a two-byte length.
pub open spec fn tag_fits(t: NbtTag) -> bool
    decreases t,
{
    match t {
        NbtTag::String(s) => str_fits(s@),
        NbtTag::Compound(c) => entries_fit(c.entries@),
        _ => true,
    }
}

pub open spec fn entries_fit(es: Seq<(String, NbtTag)>) -> bool
    decreases es,
{
    es.len() == 0 || (entries_fit(es.drop_last()) && str_fits(es.last().0@) && tag_fits(es.last().1))
}

fn tag_id(t: &NbtTag) -> (r: u8)
    ensures
        r == type_id(*t),
{
    match t {
        NbtTag::End => 0,
        NbtTag::Byte(_) => 1,
        NbtTag::Short(_) => 2,
        NbtTag::Int(_) => 3,
        NbtTag::Long(_) => 4,
        NbtTag::String(_) => 8,
        NbtTag::Compound(_) => 10,
    }
}

/// The 64-bit two's complement bits of `x`.
fn twos_complement(x: i64) -> (r: u64)
    ensures
        r as nat == wrap64(x as int),
{
    let w: i128 = x as i128;
    if w >= 0 {
        w as u64
    } else {
        (w + 0x1_0000_0000_0000_0000i128) as u64
    }
}

/// Appends the low `n` bytes of `v`, most significant first.
fn push_be(buf: &mut Vec<u8>, v: u64, n: usize)
    requires
        n <= 8,
    ensures
        final(buf)@ == old(buf)@ + be_bytes(v as nat, n as nat),
    decreases n,
{
    if n == 0 {
        assert(buf@ =~= old(buf)@ + be_bytes(v as nat, 0));
        return;
    }
    push_be(buf, v / 256, n - 1);
    buf.push((v % 256) as u8);
    assert(buf@ =~= old(buf)@ + be_bytes(v as nat, n as nat));
}

/// Appends a string as its byte length (two bytes) and its UTF-8 bytes.
fn push_str(buf: &mut Vec<u8>, s: &str) -> (r: Result<(), NbtError>)
    ensures
        final(buf)@.len() >= old(buf)@.len(),
        final(buf)@.subrange(0, old(buf)@.len() as int) == old(buf)@,
        r is Err <==> !str_fits(s@),
        r is Ok ==> final(buf)@ == old(buf)@ + str_enc(s@),
{
    let bytes = s.as_bytes();
    let n = bytes.len();
    if n > 0xffff {
        return Err(NbtError::StringTooLong);
    }
    push_be(buf, n as u64, 2);
    let ghost head = buf@;
    let mut i: usize = 0;
    while i < n
        invariant
            n == bytes@.len(),
            i <= n,
            buf@ == head + bytes@.subrange(0, i as int),
        decreases n - i,
    {
        buf.push(bytes[i]);
        i = i + 1;
        assert(buf@ =~= head + bytes@.subrange(0, i as int));
    }
    assert(bytes@.subrange(0, n as int) =~= bytes@);
    assert(buf@.subrange(0, old(buf)@.len() as int) =~= old(buf)@);
    assert(buf@ =~= old(buf)@ + str_enc(s@));
    Ok(())
}

proof fn lemma_entries_fit(es: Seq<(String, NbtTag)>, j: int)
    requires
        entries_fit(es),
        0 <= j < es.len(),
    ensures
        str_fits(es[j].0@) && tag_fits(es[j].1),
    decreases es.len(),
{
    if j < es.len() - 1 {
        lemma_entries_fit(es.drop_last(), j);
    }
}

fn write_payload(t: &NbtTag, buf: &mut Vec<u8>) -> (r: Result<(), NbtError>)
    ensures
        final(buf)@.len() >= old(buf)@.len(),
        final(buf)@.subrange(0, old(buf)@.len() as int) == old(buf)@,
        r is Ok <==> tag_fits(*t),
        r is Ok ==> final(buf)@ == old(buf)@ + payload_enc(*t),
    decreases t,
{
    match t {
        NbtTag::End => {
            assert(buf@ =~= old(buf)@ + payload_enc(*t));
            Ok(())
        },
        NbtTag::Byte(v) => {
            push_be(buf, twos_complement(*v as i64), 1);
            assert(buf@ == old(buf)@ + payload_enc(*t));
            Ok(())
        },
        NbtTag::Short(v) => {
            push_be(buf, twos_complement(*v as i64), 2);
            assert(buf@ == old(buf)@ + payload_enc(*t));
            Ok(())
        },
        NbtTag::Int(v) => {
            push_be(buf, twos_complement(*v as i64), 4);
            assert(buf@ == old(buf)@ + payload_enc(*t));
            Ok(())
        },
        NbtTag::Long(v) => {
            push_be(buf, twos_complement(*v), 8);
            assert(buf@ == old(buf)@ + payload_enc(*t));
            Ok(())
        },
        NbtTag::String(s) => push_str(buf, s.as_str()),
        NbtTag::Compound(c) => {
            let ghost start = buf@;
            let mut i: usize = 0;
            assert(c.entries@.subrange(0, 0) =~= Seq::<(String, NbtTag)>::empty());
            while i < c.entries.len()
                invariant
                    i <= c.entries@.len(),
                    buf@.len() >= start.len(),
                    buf@.subrange(0, start.len() as int) == start,
                    start == old(buf)@,
                    *t == NbtTag::Compound(*c),
                    buf@ == start + entries_enc(c.entries@.subrange(0, i as int)),
                    entries_fit(c.entries@.subrange(0, i as int)),
                decreases c.entries@.len() - i,
            {
                let entry = &c.entries[i];
                buf.push(tag_id(&entry.1));
                let named = push_str(buf, entry.0.as_str());
                if named.is_err() {
                    assert(buf@.subrange(0, start.len() as int) =~= start);
                    proof {
                        if entries_fit(c.entries@) {
                            lemma_entries_fit(c.entries@, i as int);
                        }
                    }
                    return named;
                }
                proof {
                    let cc = *c;
                    assert(decreases_to!(*t => cc.entries@[i as int].1)) by {
                        assert(decreases_to!(*t => (*t)->Compound_0));
                        assert(decreases_to!(cc => cc.entries));
                        assert(decreases_to!(cc.entries => cc.entries@));
                        assert(decreases_to!(cc.entries@ => cc.entries@[i as int]));
                        assert(decreases_to!(cc.entries@[i as int] => cc.entries@[i as int].1));
                    }
                }
                let written = write_payload(&entry.1, buf);
                assert(buf@.subrange(0, start.len() as int) =~= start);
                if written.is_err() {
                    proof {
                        if entries_fit(c.entries@) {
                            lemma_entries_fit(c.entries@, i as int);
                        }
                    }
                    return written;
                }
                proof {
                    let sub = c.entries@.subrange(0, i + 1);
                    assert(sub.drop_last() =~= c.entries@.subrange(0, i as int));
                    assert(sub.last() == c.entries@[i as int]);
                    assert(buf@ =~= start + entries_enc(sub));
                }
                i = i + 1;
            }
            buf.push(0);
            assert(buf@.subrange(0, start.len() as int) =~= start);
            assert(c.entries@.subrange(0, i as int) =~= c.entries@);
            assert(buf@ =~= old(buf)@ + payload_enc(*t));
            Ok(())
        },
    }
}

/// Relies on std's `String::from_utf8`: it succeeds exactly on UTF-8 bytes, with
/// the string that those bytes encode.
#[verifier::external_body]
fn string_from_utf8(bytes: Vec<u8>) -> (r: Option<String>)
    ensures
        r is Some <==> valid_utf8(bytes@),
        r matches Some(s) ==> encode_utf8(s@) == bytes@,
{
    String::from_utf8(bytes).ok()
}

/// Reads `n` bytes at `pos` as a number, most significant first.
fn read_be(data: &Vec<u8>, pos: usize, n: usize) -> (r: Result<(u64, usize), NbtError>)
    requires
        1 <= n <= 8,
        pos <= data@.len(),
    ensures
        r matches Ok((v, p)) ==> {
            &&& p == pos + n && p <= data@.len()
            &&& v < pow256(n as nat)
            &&& be_bytes(v as nat, n as nat) == data@.subrange(pos as int, p as int)
        },
        r is Err <==> pos + n > data@.len(),
{
    if data.len() - pos < n {
        return Err(NbtError::UnexpectedEnd);
    }
    let mut v: u64 = 0;
    let mut k: usize = 0;
    assert(data@.subrange(pos as int, pos as int) =~= be_bytes(0, 0));
    while k < n
        invariant
            k <= n <= 8,
            pos + n <= data@.len() <= usize::MAX,
            v < pow256(k as nat),
            be_bytes(v as nat, k as nat) == data@.subrange(pos as int, pos + k),
        decreases n - k,
    {
        proof {
            lemma_pow256_small(k as nat);
        }
        let b = data[pos + k];
        let ghost old_v = v;
        v = v * 256 + b as u64;
        proof {
            assert((v as nat) / 256 == old_v && (v as nat) % 256 == b);
            assert(be_bytes(v as nat, (k + 1) as nat) == be_bytes(old_v as nat, k as nat).push(b));
            assert(data@.subrange(pos as int, pos + k + 1) =~= data@.subrange(pos as int, pos + k).push(b));
        }
        k = k + 1;
    }
    Ok((v, pos + n))
}

/// The signed value whose two's complement over `full` (a power of 256) is `v`.
fn sign_extend(v: u64, full: u128) -> (r: i64)
    requires
        2 <= full <= 0x1_0000_0000_0000_0000,
        full % 2 == 0,
        0x1_0000_0000_0000_0000int % (full as int) == 0,
        v < full,
    ensures
        -(full as int) / 2 <= r < (full as int) / 2,
        (wrap64(r as int) as int) % (full as int) == v as int,
{
    let half: u128 = full / 2;
    assert((v as int) % (full as int) == v as int) by (nonlinear_arith)
        requires 0 <= v < full;
    if (v as u128) < half {
        proof {
            assert(wrap64(v as int) == v);
        }
        v as i64
    } else {
        let r: i128 = v as i128 - full as i128;
        proof {
            let f = full as int;
            let q = 0x1_0000_0000_0000_0000int / f;
            assert(q * f == 0x1_0000_0000_0000_0000int) by (nonlinear_arith)
                requires 0x1_0000_0000_0000_0000int % f == 0, q == 0x1_0000_0000_0000_0000int / f, f > 0;
            assert(wrap64(r as int) == r + 0x1_0000_0000_0000_0000int);
            assert(r + 0x1_0000_0000_0000_0000int == f * (q - 1) + v) by (nonlinear_arith)
                requires q * f == 0x1_0000_0000_0000_0000int, r == v - f;
            lemma_mod_multiples_vanish(q - 1, v as int, f);
            assert((v as int) % f == v as int) by (nonlinear_arith)
                requires 0 <= v < f;
        }
        r as i64
    }
}

/// Reads the byte at `pos`.
fn read_u8(data: &Vec<u8>, pos: usize) -> (r: Result<(u8, usize), NbtError>)
    ensures
        r matches Ok((b, p)) ==> p == pos + 1 && p <= data@.len() && b == data@[pos as int],
        r is Err <==> pos >= data@.len(),
{
    if pos < data.len() {
        Ok((data[pos], pos + 1))
    } else {
        Err(NbtError::UnexpectedEnd)
    }
}

/// Reads a string written as its byte length (two bytes) and its UTF-8 bytes.
fn read_str(data: &Vec<u8>, pos: usize) -> (r: Result<(String, usize), NbtError>)
    requires
        pos <= data@.len(),
    ensures
        r matches Ok((s, p)) ==> pos + 2 <= p <= data@.len() && data@.subrange(pos as int, p as int) == str_enc(s@),
{
    let (len, start) = read_be(data, pos, 2)?;
    proof {
        reveal_with_fuel(pow256, 3);
        assert(len < 0x1_0000);
    }
    if data.len() - start < len as usize {
        return Err(NbtError::UnexpectedEnd);
    }
    let end = start + len as usize;
    let mut bytes: Vec<u8> = Vec::new();
    let mut i: usize = start;
    while i < end
        invariant
            start <= i <= end <= data@.len(),
            bytes@ == data@.subrange(start as int, i as int),
        decreases end - i,
    {
        bytes.push(data[i]);
        i = i + 1;
        assert(bytes@ =~= data@.subrange(start as int, i as int));
    }
    let ghost bv = bytes@;
    assert(bv == data@.subrange(start as int, end as int));
    match string_from_utf8(bytes) {
        Some(s) => {
            assert(encode_utf8(s@) == bv);
            assert(encode_utf8(s@).len() == len as nat);
            assert(data@.subrange(pos as int, start as int) == be_bytes(len as nat, 2));
            assert(data@.subrange(pos as int, end as int) =~= data@.subrange(pos as int, start as int)
                + data@.subrange(start as int, end as int));
            Ok((s, end))
        },
        None => Err(NbtError::InvalidString),
    }
}

/// Reads the payload of a tag of type `id` at `pos`.
fn read_payload(data: &Vec<u8>, pos: usize, id: u8) -> (r: Result<(NbtTag, usize), NbtError>)
    requires
        pos <= data@.len(),
    ensures
        r matches Ok((t, p)) ==> {
            &&& pos <= p <= data@.len()
            &&& type_id(t) == id
            &&& id != 0 ==> pos < p
            &&& data@.subrange(pos as int, p as int) == payload_enc(t)
        },
    decreases data@.len() - pos,
{
    proof {
        reveal_with_fuel(pow256, 9);
        assert(pow256(1) == 0x100);
        assert(pow256(2) == 0x1_0000);
        assert(pow256(4) == 0x1_0000_0000);
        assert(pow256(8) == 0x1_0000_0000_0000_0000);
    }
    match id {
        0 => {
            assert(data@.subrange(pos as int, pos as int) =~= payload_enc(NbtTag::End));
            Ok((NbtTag::End, pos))
        },
        1 => {
            let (v, p) = read_be(data, pos, 1)?;
            let x = sign_extend(v, 256);
            let t = NbtTag::Byte(x as i8);
            proof {
                lemma_be_bytes_mod(wrap64(x as int), v as nat, 1);
            }
            Ok((t, p))
        },
        2 => {
            let (v, p) = read_be(data, pos, 2)?;
            let x = sign_extend(v, 0x1_0000);
            let t = NbtTag::Short(x as i16);
            proof {
                lemma_be_bytes_mod(wrap64(x as int), v as nat, 2);
            }
            Ok((t, p))
        },
        3 => {
            let (v, p) = read_be(data, pos, 4)?;
            let x = sign_extend(v, 0x1_0000_0000);
            let t = NbtTag::Int(x as i32);
            proof {
                lemma_be_bytes_mod(wrap64(x as int), v as nat, 4);
            }
            Ok((t, p))
        },
        4 => {
            let (v, p) = read_be(data, pos, 8)?;
            let x = sign_extend(v, 0x1_0000_0000_0000_0000);
            let t = NbtTag::Long(x);
            proof {
                lemma_be_bytes_mod(wrap64(x as int), v as nat, 8);
            }
            Ok((t, p))
        },
        8 => {
            let (s, p) = read_str(data, pos)?;
            Ok((NbtTag::String(s), p))
        },
        10 => {
            let mut entries: Vec<(String, NbtTag)> = Vec::new();
            let mut p: usize = pos;
            assert(data@.subrange(pos as int, pos as int) =~= entries_enc(entries@));
            loop
                invariant
                    pos <= p <= data@.len(),
                    id == 10,
                    data@.subrange(pos as int, p as int) == entries_enc(entries@),
                decreases data@.len() - p,
            {
                let (child, after_id) = read_u8(data, p)?;
                if child == 0 {
                    let t = NbtTag::Compound(NbtCompound { entries });
                    assert(data@.subrange(pos as int, after_id as int) =~= data@.subrange(pos as int, p as int)
                        + seq![0u8]);
                    return Ok((t, after_id));
                }
                let (name, after_name) = read_str(data, after_id)?;
                let (tag, after_tag) = read_payload(data, after_name, child)?;
                let ghost before = entries@;
                entries.push((name, tag));
                proof {
                    assert(entries@.drop_last() =~= before);
                    assert(data@.subrange(pos as int, after_tag as int) =~= data@.subrange(pos as int, p as int)
                        + data@.subrange(p as int, after_id as int)
                        + data@.subrange(after_id as int, after_name as int)
                        + data@.subrange(after_name as int, after_tag as int));
                    assert(data@.subrange(p as int, after_id as int) =~= seq![child]);
                }
                p = after_tag;
            }
        },
        _ => Err(NbtError::UnknownTagType),
    }
}

impl NbtCompound {
    /// A compound holding the named tags in the given order.
    pub fn from_iter(entries: Vec<(String, NbtTag)>) -> (r: Self)
        ensures
            r.entries@ == entries@,
    {
        NbtCompound { entries }
    }
}

impl NbtTag {
    /// Appends the tag as a root tag with an empty name: its type byte, the name,
    /// then its payload.
    pub fn write_into(&self, buf: &mut Vec<u8>) -> (r: Result<(), NbtError>)
        ensures
            r is Ok <==> tag_fits(*self),
            r is Ok ==> final(buf)@ == old(buf)@ + seq![type_id(*self), 0u8, 0u8] + payload_enc(*self),
            final(buf)@.len() >= old(buf)@.len(),
            final(buf)@.subrange(0, old(buf)@.len() as int) == old(buf)@,
    {
        buf.push(tag_id(self));
        let named = push_str(buf, "");
        assert(str_enc(""@) =~= seq![0u8, 0u8]) by {
            reveal_strlit("");
            assert("".spec_bytes().len() == 0);
            reveal_with_fuel(be_bytes, 3);
            assert(be_bytes(0, 2) =~= seq![0u8, 0u8]);
        }
        assert(named is Ok);
        let ghost named_buf = buf@;
        assert(named_buf =~= old(buf)@ + seq![type_id(*self), 0u8, 0u8]);
        let r = write_payload(self, buf);
        assert(buf@.subrange(0, old(buf)@.len() as int) =~= old(buf)@) by {
            assert(buf@.subrange(0, named_buf.len() as int) == named_buf);
            assert(buf@.subrange(0, old(buf)@.len() as int) =~= named_buf.subrange(0, old(buf)@.len() as int));
        }
        r
    }

    /// Reads a root tag (type byte, name, payload) at the cursor, moving the
    /// cursor past it; the name is dropped.
    pub fn read_from(cur: &mut Cursor) -> (r: Result<NbtTag, NbtError>)
        requires
            old(cur).wf(),
        ensures
            final(cur).wf(),
            r matches Ok(t) ==> exists|name: Seq<char>|
                old(cur).remaining().subrange(0, old(cur).remaining().len() - final(cur).remaining().len())
                    == seq![type_id(t)] + #[trigger] str_enc(name) + payload_enc(t),
            r is Ok ==> final(cur).remaining().len() < old(cur).remaining().len()
                && final(cur).remaining() == old(cur).remaining().subrange(
                    old(cur).remaining().len() - final(cur).remaining().len(),
                    old(cur).remaining().len() as int,
                ),
            r is Err ==> final(cur).remaining() == old(cur).remaining(),
    {
        let (id, after_id) = read_u8(&cur.data, cur.pos)?;
        let (name, after_name) = read_str(&cur.data, after_id)?;
        let (tag, after_tag) = read_payload(&cur.data, after_name, id)?;
        let ghost before = cur.remaining();
        let ghost at = cur.pos as int;
        proof {
            assert(cur.data@.subrange(at, after_tag as int) =~= cur.data@.subrange(at, after_id as int)
                + cur.data@.subrange(after_id as int, after_name as int)
                + cur.data@.subrange(after_name as int, after_tag as int));
            assert(cur.data@.subrange(at, after_id as int) =~= seq![id]);
        }
        cur.pos = after_tag;
        assert(cur.remaining() =~= before.subrange(before.len() - cur.remaining().len(), before.len() as int));
        assert(before.subrange(0, before.len() - cur.remaining().len()) =~= cur.data@.subrange(at, after_tag as int));
        assert(before.subrange(0, before.len() - cur.remaining().len())
            == seq![type_id(tag)] + str_enc(name@) + payload_enc(tag));
        Ok(tag)
    }
}

} // verus!
