use vstd::prelude::*;
use vstd::utf8::encode_utf8;
use crate::engine_util::util::bytes_to_vec;
use crate::ingest::{from_utf8_lossy, has_text_prefix, starts_with, utf8_lossy};

verus! {

/// An item read from a column family.
pub trait DBItem {
    /// The item is consistent (its prefix lies within its key).
    spec fn wf(&self) -> bool;

    /// The key, without its column family prefix.
    spec fn spec_key(&self) -> Seq<u8>;

    spec fn spec_value(&self) -> Seq<u8>;

    fn key(&self) -> (r: &[u8])
        requires
            self.wf(),
        ensures
            r@ == self.spec_key(),
    ;

    fn key_copy(&self, dst: &mut Vec<u8>) -> (r: Vec<u8>)
        requires
            self.wf(),
        ensures
            final(dst)@ == self.spec_key(),
            r@ == self.spec_key(),
    ;

    fn value(&self) -> (r: Vec<u8>)
        ensures
            r@ == self.spec_value(),
    ;

    fn value_size(&self) -> (r: usize)
        ensures
            r == self.spec_value().len(),
    ;

    fn value_copy(&self, dst: &mut Vec<u8>) -> (r: Vec<u8>)
        ensures
            final(dst)@ == self.spec_value(),
            r@ == self.spec_value(),
    ;
}

/// A cursor over the items of a column family, implemented over a storage
/// engine's iterator.
pub trait DBIterator {
    /// The current item (an empty item when the cursor is not valid).
    fn item(&self) -> CFItem;

    fn valid(&self) -> bool;

    fn next(&mut self);

    fn seek(&mut self, key: &[u8]);

    fn close(&mut self);
}

/// An item whose stored key starts with a column family prefix of
/// `prefix_len` bytes.
pub struct CFItem {
    key: Vec<u8>,
    value: Vec<u8>,
    prefix_len: usize,
}

impl CFItem {
    pub closed spec fn full_key(&self) -> Seq<u8> {
        self.key@
    }

    pub closed spec fn prefix_len(&self) -> nat {
        self.prefix_len as nat
    }

    pub fn new(key: Vec<u8>, value: Vec<u8>, prefix_len: usize) -> (r: Self)
        ensures
            r.full_key() == key@,
            r.spec_value() == value@,
            r.prefix_len() == prefix_len,
    {
        CFItem { key, value, prefix_len }
    }
}

impl DBItem for CFItem {
    closed spec fn wf(&self) -> bool {
        self.prefix_len <= self.key@.len()
    }

    closed spec fn spec_key(&self) -> Seq<u8> {
        self.key@.subrange(self.prefix_len as int, self.key@.len() as int)
    }

    closed spec fn spec_value(&self) -> Seq<u8> {
        self.value@
    }

    fn key(&self) -> (r: &[u8]) {
        vstd::slice::slice_subrange(self.key.as_slice(), self.prefix_len, self.key.len())
    }

    fn key_copy(&self, dst: &mut Vec<u8>) -> (r: Vec<u8>) {
        dst.clear();
        let mut i: usize = self.prefix_len;
        while i < self.key.len()
            invariant
                self.prefix_len <= i <= self.key@.len(),
                dst@ =~= self.key@.subrange(self.prefix_len as int, i as int),
            decreases self.key@.len() - i,
        {
            dst.push(self.key[i]);
            i += 1;
        }
        bytes_to_vec(dst.as_slice())
    }

    fn value(&self) -> (r: Vec<u8>) {
        bytes_to_vec(self.value.as_slice())
    }

    fn value_size(&self) -> (r: usize) {
        self.value.len()
    }

    fn value_copy(&self, dst: &mut Vec<u8>) -> (r: Vec<u8>) {
        dst.clear();
        let mut i: usize = 0;
        while i < self.value.len()
            invariant
                0 <= i <= self.value@.len(),
                dst@ =~= self.value@.take(i as int),
            decreases self.value@.len() - i,
        {
            dst.push(self.value[i]);
            i += 1;
        }
        proof {
            assert(self.value@.take(self.value@.len() as int) =~= self.value@);
        }
        bytes_to_vec(dst.as_slice())
    }
}

/// The state of a cursor that walks a column family by key prefix: the
/// prefix, and the key and value under the cursor while it stays within
/// the prefix. The engine's own cursor, which moves, is kept beside it.
pub struct PrefixCursor {
    pub prefix: String,
    pub current_key: Option<Vec<u8>>,
    pub current_value: Option<Vec<u8>>,
}

/// What the cursor holds after the engine's cursor came to `at`: the key
/// and (if it could be read) the value there, when the key read as text
/// starts with `prefix`; nothing otherwise.
pub open spec fn cursor_entry(prefix: Seq<char>, at: Option<(Seq<u8>, Option<Seq<u8>>)>) -> (
    Option<Seq<u8>>,
    Option<Seq<u8>>,
) {
    match at {
        Some((k, v)) => if has_text_prefix(utf8_lossy(k), prefix) {
            (Some(k), v)
        } else {
            (None, None)
        },
        None => (None, None),
    }
}

/// Byte strings as sequences.
pub open spec fn opt_bytes(b: Option<Vec<u8>>) -> Option<Seq<u8>> {
    match b {
        Some(v) => Some(v@),
        None => None,
    }
}

impl PrefixCursor {
    /// A cursor over the keys starting with `prefix`, not yet on an entry.
    pub fn new(prefix: String) -> (r: Self)
        ensures
            r.prefix == prefix,
            r.current_key is None,
            r.current_value is None,
    {
        PrefixCursor { prefix, current_key: None, current_value: None }
    }

    /// Takes the entry that the engine's cursor shows after a move: `at` is
    /// `None` when that cursor ran off the end.
    pub fn update_current(&mut self, at: Option<(Vec<u8>, Option<Vec<u8>>)>)
        ensures
            final(self).prefix == old(self).prefix,
            (opt_bytes(final(self).current_key), opt_bytes(final(self).current_value)) == cursor_entry(
                old(self).prefix@,
                match at {
                    Some((k, v)) => Some((k@, opt_bytes(v))),
                    None => None,
                },
            ),
    {
        match at {
            Some((k, v)) => {
                let text = from_utf8_lossy(k.as_slice());
                if starts_with(text.as_str(), self.prefix.as_str()) {
                    self.current_key = Some(k);
                    self.current_value = v;
                } else {
                    self.current_key = None;
                    self.current_value = None;
                }
            },
            None => {
                self.current_key = None;
                self.current_value = None;
            },
        }
    }

    /// The stored key to which the engine's cursor moves to reach `key`:
    /// the prefix, then `key`.
    pub fn seek_key(&self, key: &[u8]) -> (r: Vec<u8>)
        ensures
            r@ == encode_utf8(self.prefix@) + key@,
    {
        let prefix = self.prefix.as_str().as_bytes();
        let mut out = bytes_to_vec(prefix);
        let mut i: usize = 0;
        while i < key.len()
            invariant
                0 <= i <= key@.len(),
                out@ == encode_utf8(self.prefix@) + key@.take(i as int),
            decreases key@.len() - i,
        {
            out.push(key[i]);
            proof {
                assert(key@.take(i + 1) =~= key@.take(i as int).push(key@[i as int]));
            }
            i += 1;
        }
        proof {
            assert(key@.take(i as int) =~= key@);
        }
        out
    }

    /// The cursor is on an entry whose key and value it holds.
    pub fn valid(&self) -> (r: bool)
        ensures
            r == (self.current_key is Some && self.current_value is Some),
    {
        self.current_key.is_some() && self.current_value.is_some()
    }

    /// The entry under the cursor, its key read past the prefix; an empty
    /// item when the cursor is not on an entry.
    pub fn item(&self) -> (r: CFItem)
        ensures
            self.current_key is Some && self.current_value is Some ==> r.full_key()
                == self.current_key->Some_0@ && r.spec_value() == self.current_value->Some_0@
                && r.prefix_len() == (encode_utf8(self.prefix@).len() as usize),
            !(self.current_key is Some && self.current_value is Some) ==> r.full_key().len() == 0
                && r.spec_value().len() == 0 && r.prefix_len() == 0,
    {
        if let Some(k) = &self.current_key {
            if let Some(v) = &self.current_value {
                let n = self.prefix.as_str().len();
                return CFItem::new(bytes_to_vec(k.as_slice()), bytes_to_vec(v.as_slice()), n);
            }
        }
        CFItem::new(Vec::new(), Vec::new(), 0)
    }
}

} // verus!
