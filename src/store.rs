use crate::config::{
    background_key, background_key_bytes, line_text, logo_path_key, logo_path_key_bytes, pad_to,
    padded, parse_color, parse_color_bytes, parse_resolution, parse_resolution_bytes, resolution_key,
    resolution_key_bytes, write_line, ConfigData, ConfigView,
};
use crate::color::{Color, Resolution};
use crate::keyvalue::{pairs_view, parse_pairs, parse_text};
use vstd::prelude::*;

verus! {

/// A key, its value, and whether the value changed since it was read.
pub type EntryView = (Seq<u8>, Seq<u8>, bool);

/// Position of the first entry with key `k`, or `es.len()` when there is none.
pub open spec fn key_index(es: Seq<EntryView>, k: Seq<u8>) -> int
    decreases es.len(),
{
    if es.len() == 0 {
        0
    } else if es[0].0 == k {
        0
    } else {
        1 + key_index(es.drop_first(), k)
    }
}

/// The value stored under `k`.
pub open spec fn lookup(es: Seq<EntryView>, k: Seq<u8>) -> Option<Seq<u8>> {
    let i = key_index(es, k);
    if 0 <= i < es.len() {
        Some(es[i].1)
    } else {
        None
    }
}

/// `es` with the entry for `k` replaced in place, or appended when absent.
pub open spec fn upsert(es: Seq<EntryView>, k: Seq<u8>, v: Seq<u8>, dirty: bool) -> Seq<EntryView> {
    let i = key_index(es, k);
    if 0 <= i < es.len() {
        es.update(i, (k, v, dirty))
    } else {
        es.push((k, v, dirty))
    }
}

/// The entries after reading `ps` in order: a later pair for a key replaces an
/// earlier one, and nothing is marked changed.
pub open spec fn load_entries(ps: Seq<(Seq<u8>, Seq<u8>)>) -> Seq<EntryView>
    decreases ps.len(),
{
    if ps.len() == 0 {
        Seq::empty()
    } else {
        upsert(load_entries(ps.drop_last()), ps.last().0, ps.last().1, false)
    }
}

pub open spec fn has_dirty(es: Seq<EntryView>) -> bool {
    exists|i: int| 0 <= i < es.len() && (#[trigger] es[i]).2
}

/// The lines of the changed entries, in order.
pub open spec fn dirty_text(es: Seq<EntryView>) -> Seq<u8>
    decreases es.len(),
{
    if es.len() == 0 {
        Seq::empty()
    } else {
        dirty_text(es.drop_last()) + (if es.last().2 { line_text(es.last().0, es.last().1) } else { Seq::empty() })
    }
}

/// What releasing a store writes: nothing when no entry changed; otherwise
/// the lines of the changed entries from the start, padded with spaces to the
/// old length.
pub open spec fn released(v: StoreView) -> Option<Seq<u8>> {
    if has_dirty(v.entries) {
        Some(padded(dirty_text(v.entries), v.stored_len))
    } else {
        None
    }
}

/// The typed record that the entries describe; a missing or malformed field
/// keeps its default.
pub open spec fn typed_from(es: Seq<EntryView>) -> ConfigView {
    ConfigView {
        background: match lookup(es, background_key()) {
            Some(v) => match parse_color(v) {
                Some(c) => c,
                None => Color { r: 0, g: 0, b: 0 },
            },
            None => Color { r: 0, g: 0, b: 0 },
        },
        logo_path: match lookup(es, logo_path_key()) {
            Some(v) => v,
            None => Seq::empty(),
        },
        resolution: match lookup(es, resolution_key()) {
            Some(v) => match parse_resolution(v) {
                Some(r) => r,
                None => Resolution { width: 0, height: 0 },
            },
            None => Resolution { width: 0, height: 0 },
        },
    }
}

pub open spec fn recognized(k: Seq<u8>) -> bool {
    k == background_key() || k == logo_path_key() || k == resolution_key()
}

/// The keys, in order, that name no field of the typed record.
pub open spec fn unrecognized(es: Seq<EntryView>) -> Seq<Seq<u8>>
    decreases es.len(),
{
    if es.len() == 0 {
        Seq::empty()
    } else if recognized(es.last().0) {
        unrecognized(es.drop_last())
    } else {
        unrecognized(es.drop_last()).push(es.last().0)
    }
}

pub proof fn lemma_key_index(es: Seq<EntryView>, k: Seq<u8>, i: int)
    requires
        0 <= i <= es.len(),
        forall|j: int| 0 <= j < i ==> es[j].0 != k,
        i == es.len() || es[i].0 == k,
    ensures
        key_index(es, k) == i,
    decreases es.len(),
{
    if es.len() > 0 && es[0].0 != k {
        lemma_key_index(es.drop_first(), k, i - 1);
    }
}

pub proof fn lemma_key_index_bounds(es: Seq<EntryView>, k: Seq<u8>)
    ensures
        0 <= key_index(es, k) <= es.len(),
    decreases es.len(),
{
    if es.len() > 0 && es[0].0 != k {
        lemma_key_index_bounds(es.drop_first(), k);
    }
}

/// Why a configuration text was refused.
#[derive(Clone, Copy, PartialEq, Eq, Structural, Debug)]
pub enum ConfigError {
    /// A line that is neither blank nor a single `key = value` pair.
    MalformedLine,
}

struct Entry {
    key: Vec<u8>,
    value: Vec<u8>,
    dirty: bool,
}

pub struct StoreView {
    pub entries: Seq<EntryView>,
    /// Length of the backing text when it was read.
    pub stored_len: nat,
}

/// The configuration as an open mapping from key to value, read from the
/// text format, which remembers which entries were changed.
pub struct KeyValueStore {
    entries: Vec<Entry>,
    stored_len: usize,
}

impl View for KeyValueStore {
    type V = StoreView;

    closed spec fn view(&self) -> StoreView {
        StoreView {
            entries: Seq::new(self.entries@.len(), |i: int|
                (self.entries@[i].key@, self.entries@[i].value@, self.entries@[i].dirty)),
            stored_len: self.stored_len as nat,
        }
    }
}

fn bytes_equal(a: &[u8], b: &[u8]) -> (r: bool)
    ensures
        r == (a@ == b@),
{
    if a.len() != b.len() {
        return false;
    }
    let mut i: usize = 0;
    while i < a.len()
        invariant
            a@.len() == b@.len(),
            i <= a@.len(),
            forall|j: int| 0 <= j < i ==> a@[j] == b@[j],
        decreases a@.len() - i,
    {
        if a[i] != b[i] {
            return false;
        }
        i += 1;
    }
    assert(a@ =~= b@);
    true
}

impl KeyValueStore {
    /// An empty store over a backing text of `stored_len` bytes.
    pub fn empty(stored_len: usize) -> (s: KeyValueStore)
        ensures
            s@.entries == Seq::<EntryView>::empty(),
            s@.stored_len == stored_len,
    {
        let s = KeyValueStore { entries: Vec::new(), stored_len };
        assert(s@.entries =~= Seq::<EntryView>::empty());
        s
    }

    fn find(&self, key: &[u8]) -> (i: usize)
        ensures
            i == key_index(self@.entries, key@),
    {
        let mut i: usize = 0;
        while i < self.entries.len()
            invariant
                i <= self@.entries.len(),
                forall|j: int| 0 <= j < i ==> self@.entries[j].0 != key@,
            decreases self@.entries.len() - i,
        {
            if bytes_equal(self.entries[i].key.as_slice(), key) {
                proof { lemma_key_index(self@.entries, key@, i as int); }
                return i;
            }
            i += 1;
        }
        proof { lemma_key_index(self@.entries, key@, i as int); }
        i
    }

    fn put(&mut self, key: &[u8], value: &[u8], dirty: bool)
        ensures
            final(self)@ == (StoreView { entries: upsert(old(self)@.entries, key@, value@, dirty), ..old(self)@ }),
    {
        let i = self.find(key);
        let mut k: Vec<u8> = Vec::new();
        crate::bytes::append_bytes(&mut k, key);
        let mut v: Vec<u8> = Vec::new();
        crate::bytes::append_bytes(&mut v, value);
        assert(k@ =~= key@);
        assert(v@ =~= value@);
        let ghost before = self@.entries;
        if i < self.entries.len() {
            self.entries.set(i, Entry { key: k, value: v, dirty });
        } else {
            self.entries.push(Entry { key: k, value: v, dirty });
        }
        assert(self@.entries =~= upsert(before, key@, value@, dirty));
    }

    /// Reads a configuration text. Fails only on a malformed line; a later
    /// line for a key replaces an earlier one.
    pub fn load(text: &[u8]) -> (r: Result<KeyValueStore, ConfigError>)
        ensures
            match parse_text(text@) {
                Some(ps) => r matches Ok(s) && s@ == (StoreView { entries: load_entries(ps), stored_len: text@.len() }),
                None => r == Err::<KeyValueStore, ConfigError>(ConfigError::MalformedLine),
            },
    {
        let pairs = match parse_pairs(text) {
            Some(p) => p,
            None => return Err(ConfigError::MalformedLine),
        };
        let ghost ps = pairs_view(pairs@);
        let mut s = KeyValueStore::empty(text.len());
        let mut i: usize = 0;
        while i < pairs.len()
            invariant
                i <= pairs@.len(),
                ps == pairs_view(pairs@),
                s@ == (StoreView { entries: load_entries(ps.subrange(0, i as int)), stored_len: text@.len() }),
            decreases pairs@.len() - i,
        {
            let (k, v) = (&pairs[i].0, &pairs[i].1);
            s.put(k.as_slice(), v.as_slice(), false);
            assert(ps.subrange(0, i + 1).drop_last() =~= ps.subrange(0, i as int));
            i += 1;
        }
        assert(ps.subrange(0, ps.len() as int) =~= ps);
        Ok(s)
    }

    /// The value stored under `key`.
    pub fn get(&self, key: &[u8]) -> (r: Option<&Vec<u8>>)
        ensures
            match lookup(self@.entries, key@) {
                Some(v) => r matches Some(x) && x@ == v,
                None => r is None,
            },
    {
        let i = self.find(key);
        proof { lemma_key_index_bounds(self@.entries, key@); }
        if i < self.entries.len() {
            Some(&self.entries[i].value)
        } else {
            None
        }
    }

    /// Stores `value` under `key` and marks that entry changed.
    pub fn set(&mut self, key: &[u8], value: &[u8])
        ensures
            final(self)@ == (StoreView { entries: upsert(old(self)@.entries, key@, value@, true), ..old(self)@ }),
    {
        self.put(key, value, true);
    }

    /// Whether some entry changed since it was read.
    pub fn is_dirty(&self) -> (r: bool)
        ensures
            r == has_dirty(self@.entries),
    {
        let mut i: usize = 0;
        while i < self.entries.len()
            invariant
                i <= self@.entries.len(),
                forall|j: int| 0 <= j < i ==> !self@.entries[j].2,
            decreases self@.entries.len() - i,
        {
            if self.entries[i].dirty {
                assert(self@.entries[i as int].2);
                return true;
            }
            i += 1;
        }
        false
    }

    /// The lines of the changed entries, in order.
    pub fn changed_text(&self) -> (t: Vec<u8>)
        ensures
            t@ == dirty_text(self@.entries),
    {
        let ghost es = self@.entries;
        let mut t: Vec<u8> = Vec::new();
        let mut i: usize = 0;
        while i < self.entries.len()
            invariant
                i <= es.len(),
                es == self@.entries,
                t@ == dirty_text(es.subrange(0, i as int)),
            decreases es.len() - i,
        {
            let e = &self.entries[i];
            assert(es.subrange(0, i + 1).drop_last() =~= es.subrange(0, i as int));
            if e.dirty {
                write_line(&mut t, e.key.as_slice(), e.value.as_slice());
            } else {
                assert(t@ =~= t@ + Seq::<u8>::empty());
            }
            i += 1;
        }
        assert(es.subrange(0, es.len() as int) =~= es);
        t
    }

    /// What the backing text must become when the store is released.
    pub fn release(&self) -> (r: Option<Vec<u8>>)
        ensures
            match r {
                Some(t) => released(self@) == Some(t@),
                None => released(self@) is None,
            },
    {
        if !self.is_dirty() {
            return None;
        }
        let t = self.changed_text();
        Some(pad_to(t.as_slice(), self.stored_len))
    }

    /// The typed record the entries describe.
    pub fn config_data(&self) -> (d: ConfigData)
        ensures
            d@ == typed_from(self@.entries),
    {
        let bk = background_key_bytes();
        let lk = logo_path_key_bytes();
        let rk = resolution_key_bytes();
        let background = match self.get(bk.as_slice()) {
            Some(v) => match parse_color_bytes(v.as_slice()) {
                Some(c) => c,
                None => Color { r: 0, g: 0, b: 0 },
            },
            None => Color { r: 0, g: 0, b: 0 },
        };
        let mut logo_path: Vec<u8> = Vec::new();
        match self.get(lk.as_slice()) {
            Some(v) => crate::bytes::append_bytes(&mut logo_path, v.as_slice()),
            None => {},
        }
        let resolution = match self.get(rk.as_slice()) {
            Some(v) => match parse_resolution_bytes(v.as_slice()) {
                Some(r) => r,
                None => Resolution { width: 0, height: 0 },
            },
            None => Resolution { width: 0, height: 0 },
        };
        let d = ConfigData { background, logo_path, resolution };
        assert(d@.logo_path =~= typed_from(self@.entries).logo_path);
        d
    }

    /// The keys that name no field of the typed record, in order, for the
    /// caller to warn about.
    pub fn unrecognized_keys(&self) -> (r: Vec<Vec<u8>>)
        ensures
            r@.len() == unrecognized(self@.entries).len(),
            forall|i: int| 0 <= i < r@.len() ==> #[trigger] r@[i]@ == unrecognized(self@.entries)[i],
    {
        let ghost es = self@.entries;
        let bk = background_key_bytes();
        let lk = logo_path_key_bytes();
        let rk = resolution_key_bytes();
        let mut r: Vec<Vec<u8>> = Vec::new();
        let mut i: usize = 0;
        while i < self.entries.len()
            invariant
                i <= es.len(),
                es == self@.entries,
                bk@ == background_key(),
                lk@ == logo_path_key(),
                rk@ == resolution_key(),
                r@.len() == unrecognized(es.subrange(0, i as int)).len(),
                forall|j: int| 0 <= j < r@.len() ==> #[trigger] r@[j]@ == unrecognized(es.subrange(0, i as int))[j],
            decreases es.len() - i,
        {
            let k = self.entries[i].key.as_slice();
            assert(es.subrange(0, i + 1).drop_last() =~= es.subrange(0, i as int));
            let known = bytes_equal(k, bk.as_slice()) || bytes_equal(k, lk.as_slice())
                || bytes_equal(k, rk.as_slice());
            if !known {
                let mut copy: Vec<u8> = Vec::new();
                crate::bytes::append_bytes(&mut copy, k);
                assert(copy@ =~= k@);
                r.push(copy);
            }
            i += 1;
        }
        assert(es.subrange(0, es.len() as int) =~= es);
        r
    }
}

} // verus!
