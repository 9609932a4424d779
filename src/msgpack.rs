//! The operations' arguments in the MessagePack interchange format, written with `rmp`.
use vstd::prelude::*;
use vstd::utf8::encode_utf8;
use crate::decoder::pairs_view;
use crate::encoder::EncoderError;
use crate::text::texts;

verus! {

/// The last `k` bytes of `n`, most significant first.
pub open spec fn be_bytes(n: nat, k: nat) -> Seq<u8>
    decreases k,
{
    if k == 0 {
        Seq::empty()
    } else {
        be_bytes(n / 256, (k - 1) as nat).push((n % 256) as u8)
    }
}

/// The encoding of a string: a header that fits its byte length (fixstr, str 8, str 16
/// or str 32), then its UTF-8 bytes.
pub open spec fn msgpack_str(s: Seq<char>) -> Seq<u8> {
    let b = encode_utf8(s);
    let n = b.len();
    let head = if n < 32 {
        seq![(0xa0 + n) as u8]
    } else if n < 256 {
        seq![0xd9u8, n as u8]
    } else if n < 65536 {
        seq![0xdau8] + be_bytes(n, 2)
    } else {
        seq![0xdbu8] + be_bytes(n, 4)
    };
    head + b
}

/// The header of a map of `len` entries: fixmap, map 16 or map 32.
pub open spec fn msgpack_map_header(len: nat) -> Seq<u8> {
    if len < 16 {
        seq![(0x80 + len) as u8]
    } else if len < 65536 {
        seq![0xdeu8] + be_bytes(len, 2)
    } else {
        seq![0xdfu8] + be_bytes(len, 4)
    }
}

/// The header of an array of `len` items: fixarray, array 16 or array 32.
pub open spec fn msgpack_array_header(len: nat) -> Seq<u8> {
    if len < 16 {
        seq![(0x90 + len) as u8]
    } else if len < 65536 {
        seq![0xdcu8] + be_bytes(len, 2)
    } else {
        seq![0xddu8] + be_bytes(len, 4)
    }
}

/// A string whose byte length the format can carry.
pub open spec fn text_fits(t: Seq<char>) -> bool {
    encode_utf8(t).len() <= u32::MAX
}

/// An array of strings that the format can carry.
pub open spec fn list_fits(v: Seq<Seq<char>>) -> bool {
    v.len() <= u32::MAX && forall|i: int| 0 <= i < v.len() ==> text_fits(#[trigger] v[i])
}

/// An entry of a map from strings to strings that the format can carry.
pub open spec fn pair_fits(p: (Seq<char>, Seq<char>)) -> bool {
    text_fits(p.0) && text_fits(p.1)
}

/// A map from strings to strings that the format can carry.
pub open spec fn map_fits(ps: Seq<(Seq<char>, Seq<char>)>) -> bool {
    ps.len() <= u32::MAX && forall|i: int| 0 <= i < ps.len() ==> #[trigger] pair_fits(ps[i])
}

/// A map from strings to arrays of strings that the format can carry.
pub open spec fn index_fits(x: Seq<(Seq<char>, Seq<Seq<char>>)>) -> bool {
    x.len() <= u32::MAX && forall|i: int|
        0 <= i < x.len() ==> text_fits(#[trigger] x[i].0) && list_fits(x[i].1)
}

/// Relies on `rmp::encode::write_str`: appends the header for the string's byte length
/// and its bytes. Writing into a `Vec<u8>` cannot fail.
#[verifier::external_body]
fn write_str(buf: &mut Vec<u8>, s: &str)
    requires
        text_fits(s@),
    ensures
        final(buf)@ == old(buf)@ + msgpack_str(s@),
{
    let _ = rmp::encode::write_str(buf, s);
}

/// Relies on `rmp::encode::write_map_len`: appends the header of a map of `len` entries.
/// Writing into a `Vec<u8>` cannot fail.
#[verifier::external_body]
fn write_map_len(buf: &mut Vec<u8>, len: u32)
    ensures
        final(buf)@ == old(buf)@ + msgpack_map_header(len as nat),
{
    let _ = rmp::encode::write_map_len(buf, len);
}

/// Relies on `rmp::encode::write_array_len`: appends the header of an array of `len`
/// items. Writing into a `Vec<u8>` cannot fail.
#[verifier::external_body]
fn write_array_len(buf: &mut Vec<u8>, len: u32)
    ensures
        final(buf)@ == old(buf)@ + msgpack_array_header(len as nat),
{
    let _ = rmp::encode::write_array_len(buf, len);
}

pub open spec fn list_body(v: Seq<Seq<char>>) -> Seq<u8>
    decreases v.len(),
{
    if v.len() == 0 {
        Seq::empty()
    } else {
        list_body(v.drop_last()) + msgpack_str(v.last())
    }
}

/// An array of strings.
pub open spec fn msgpack_list_bytes(v: Seq<Seq<char>>) -> Seq<u8> {
    msgpack_array_header(v.len()) + list_body(v)
}

pub open spec fn map_body(ps: Seq<(Seq<char>, Seq<char>)>) -> Seq<u8>
    decreases ps.len(),
{
    if ps.len() == 0 {
        Seq::empty()
    } else {
        map_body(ps.drop_last()) + msgpack_str(ps.last().0) + msgpack_str(ps.last().1)
    }
}

/// A map from strings to strings, in the order of its entries.
pub open spec fn msgpack_map_bytes(ps: Seq<(Seq<char>, Seq<char>)>) -> Seq<u8> {
    msgpack_map_header(ps.len()) + map_body(ps)
}

pub open spec fn index_body(x: Seq<(Seq<char>, Seq<Seq<char>>)>) -> Seq<u8>
    decreases x.len(),
{
    if x.len() == 0 {
        Seq::empty()
    } else {
        index_body(x.drop_last()) + msgpack_str(x.last().0) + msgpack_list_bytes(x.last().1)
    }
}

/// A map from strings to arrays of strings, in the order of its entries.
pub open spec fn msgpack_index_bytes(x: Seq<(Seq<char>, Seq<Seq<char>>)>) -> Seq<u8> {
    msgpack_map_header(x.len()) + index_body(x)
}

/// Whether the format can carry the string.
fn fits(s: &str) -> (r: bool)
    ensures
        r == text_fits(s@),
{
    s.as_bytes().len() <= u32::MAX as usize
}

/// Appends an array of strings, when the format can carry it.
fn write_list(buf: &mut Vec<u8>, v: &Vec<String>) -> (ok: bool)
    ensures
        ok == list_fits(texts(v@)),
        ok ==> final(buf)@ == old(buf)@ + msgpack_list_bytes(texts(v@)),
{
    if v.len() > u32::MAX as usize {
        return false;
    }
    let mut i: usize = 0;
    while i < v.len()
        invariant
            i <= v@.len(),
            forall|j: int| 0 <= j < i ==> text_fits(#[trigger] texts(v@)[j]),
        decreases v.len() - i,
    {
        if !fits(v[i].as_str()) {
            assert(!text_fits(texts(v@)[i as int]));
            return false;
        }
        i = i + 1;
    }
    write_array_len(buf, v.len() as u32);
    let ghost start = old(buf)@ + msgpack_array_header(v@.len());
    let mut i: usize = 0;
    assert(texts(v@).take(0) =~= Seq::empty());
    assert(buf@ =~= start + list_body(texts(v@).take(0)));
    while i < v.len()
        invariant
            i <= v@.len(),
            list_fits(texts(v@)),
            buf@ == start + list_body(texts(v@).take(i as int)),
        decreases v.len() - i,
    {
        assert(text_fits(texts(v@)[i as int]));
        write_str(buf, v[i].as_str());
        assert(texts(v@).take(i + 1).drop_last() =~= texts(v@).take(i as int));
        assert(buf@ =~= start + list_body(texts(v@).take(i + 1)));
        i = i + 1;
    }
    assert(texts(v@).take(i as int) =~= texts(v@));
    assert(buf@ =~= old(buf)@ + msgpack_list_bytes(texts(v@)));
    true
}

/// A map from strings to strings, encoded in the order of its entries; it fails only
/// when the format cannot carry it.
pub fn msgpack_encode(m: &Vec<(String, String)>) -> (r: Result<Vec<u8>, EncoderError>)
    ensures
        r is Ok <==> map_fits(pairs_view(m@)),
        match r {
            Ok(b) => b@ == msgpack_map_bytes(pairs_view(m@)),
            Err(e) => e == EncoderError::MsgPackError,
        },
{
    let ghost ps = pairs_view(m@);
    if m.len() > u32::MAX as usize {
        return Err(EncoderError::MsgPackError);
    }
    let mut i: usize = 0;
    while i < m.len()
        invariant
            ps == pairs_view(m@),
            ps.len() <= u32::MAX,
            i <= ps.len(),
            forall|j: int| 0 <= j < i ==> #[trigger] pair_fits(ps[j]),
        decreases m.len() - i,
    {
        assert(ps[i as int] == (m@[i as int].0@, m@[i as int].1@));
        if !fits(m[i].0.as_str()) || !fits(m[i].1.as_str()) {
            assert(!pair_fits(ps[i as int]));
            assert(!map_fits(ps));
            return Err(EncoderError::MsgPackError);
        }
        i = i + 1;
    }
    assert(map_fits(ps));
    let mut buf: Vec<u8> = Vec::new();
    write_map_len(&mut buf, m.len() as u32);
    let ghost start = msgpack_map_header(ps.len());
    let mut i: usize = 0;
    assert(ps.take(0) =~= Seq::empty());
    assert(buf@ =~= start + map_body(ps.take(0)));
    while i < m.len()
        invariant
            ps == pairs_view(m@),
            map_fits(ps),
            i <= ps.len(),
            buf@ == start + map_body(ps.take(i as int)),
        decreases m.len() - i,
    {
        assert(pair_fits(ps[i as int]));
        write_str(&mut buf, m[i].0.as_str());
        write_str(&mut buf, m[i].1.as_str());
        assert(ps.take(i + 1).drop_last() =~= ps.take(i as int));
        assert(buf@ =~= start + map_body(ps.take(i + 1)));
        i = i + 1;
    }
    assert(ps.take(i as int) =~= ps);
    Ok(buf)
}

/// An array of strings; it fails only when the format cannot carry it.
pub fn msgpack_encode_list(v: &Vec<String>) -> (r: Result<Vec<u8>, EncoderError>)
    ensures
        r is Ok <==> list_fits(texts(v@)),
        match r {
            Ok(b) => b@ == msgpack_list_bytes(texts(v@)),
            Err(e) => e == EncoderError::MsgPackError,
        },
{
    let mut buf: Vec<u8> = Vec::new();
    if write_list(&mut buf, v) {
        assert(buf@ =~= msgpack_list_bytes(texts(v@)));
        Ok(buf)
    } else {
        Err(EncoderError::MsgPackError)
    }
}

/// A map from strings to arrays of strings, encoded in the order of its entries; it
/// fails only when the format cannot carry it.
pub fn msgpack_encode_index(x: &Vec<(String, Vec<String>)>) -> (r: Result<Vec<u8>, EncoderError>)
    ensures
        r is Ok <==> index_fits(x@.map_values(|p: (String, Vec<String>)| (p.0@, texts(p.1@)))),
        match r {
            Ok(b) => b@ == msgpack_index_bytes(x@.map_values(
                |p: (String, Vec<String>)| (p.0@, texts(p.1@)),
            )),
            Err(e) => e == EncoderError::MsgPackError,
        },
{
    let ghost xs = x@.map_values(|p: (String, Vec<String>)| (p.0@, texts(p.1@)));
    if x.len() > u32::MAX as usize {
        return Err(EncoderError::MsgPackError);
    }
    let mut buf: Vec<u8> = Vec::new();
    write_map_len(&mut buf, x.len() as u32);
    let ghost start = msgpack_map_header(xs.len());
    let mut i: usize = 0;
    assert(xs.take(0) =~= Seq::empty());
    assert(buf@ =~= start + index_body(xs.take(0)));
    while i < x.len()
        invariant
            xs == x@.map_values(|p: (String, Vec<String>)| (p.0@, texts(p.1@))),
            xs.len() <= u32::MAX,
            i <= xs.len(),
            forall|j: int| 0 <= j < i ==> text_fits(#[trigger] xs[j].0),
            forall|j: int| 0 <= j < i ==> list_fits(#[trigger] xs[j].1),
            buf@ == start + index_body(xs.take(i as int)),
        decreases x.len() - i,
    {
        assert(xs[i as int] == (x@[i as int].0@, texts(x@[i as int].1@)));
        if !fits(x[i].0.as_str()) {
            assert(!text_fits(xs[i as int].0));
            assert(!index_fits(xs));
            return Err(EncoderError::MsgPackError);
        }
        assert(text_fits(xs[i as int].0));
        write_str(&mut buf, x[i].0.as_str());
        let ok = write_list(&mut buf, &x[i].1);
        assert(ok == list_fits(xs[i as int].1));
        if !ok {
            assert(!index_fits(xs));
            return Err(EncoderError::MsgPackError);
        }
        assert(text_fits(xs[i as int].0) && list_fits(xs[i as int].1));
        assert(xs.take(i + 1).drop_last() =~= xs.take(i as int));
        assert(buf@ =~= start + index_body(xs.take(i + 1)));
        i = i + 1;
    }
    assert(xs.take(i as int) =~= xs);
    assert(index_fits(xs));
    Ok(buf)
}

} // verus!
