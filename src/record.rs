use crate::color::{Color, Resolution};
use crate::config::{default_config, pad_to, padded, ConfigData, ConfigView};
use vstd::prelude::*;

verus! {

pub struct RecordView {
    pub data: ConfigView,
    /// Whether some field changed since the record was read.
    pub dirty: bool,
    /// Length of the backing file when it was read.
    pub stored_len: nat,
}

/// What releasing the record writes, given the encoding of its current
/// value: nothing when no field changed; otherwise the encoding, padded with
/// spaces to the old length.
pub open spec fn record_released(v: RecordView, encoded: Seq<u8>) -> Option<Seq<u8>> {
    if v.dirty {
        Some(padded(encoded, v.stored_len))
    } else {
        None
    }
}

/// The configuration kept as one typed record, written back whole when any
/// field changed. Encoding and decoding the record are left to the caller,
/// which hands over the decoded record and the encoded bytes.
pub struct Config {
    data: ConfigData,
    dirty: bool,
    stored_len: usize,
}

impl View for Config {
    type V = RecordView;

    closed spec fn view(&self) -> RecordView {
        RecordView { data: self.data@, dirty: self.dirty, stored_len: self.stored_len as nat }
    }
}

impl Config {
    /// The record read from a backing file of `stored_len` bytes; the default
    /// record when the file could not be decoded.
    pub fn new(decoded: Option<ConfigData>, stored_len: usize) -> (s: Config)
        ensures
            s@.data == (match decoded {
                Some(d) => d@,
                None => default_config(),
            }),
            !s@.dirty,
            s@.stored_len == stored_len,
    {
        let data = match decoded {
            Some(d) => d,
            None => ConfigData::new(),
        };
        Config { data, dirty: false, stored_len }
    }

    pub fn data(&self) -> (d: &ConfigData)
        ensures
            d@ == self@.data,
    {
        &self.data
    }

    pub fn is_dirty(&self) -> (r: bool)
        ensures
            r == self@.dirty,
    {
        self.dirty
    }

    pub fn set_background(&mut self, c: Color)
        ensures
            final(self)@ == (RecordView {
                data: ConfigView { background: c, ..old(self)@.data },
                dirty: true,
                ..old(self)@
            }),
    {
        self.data.background = c;
        self.dirty = true;
    }

    pub fn set_logo_path(&mut self, p: &[u8])
        ensures
            final(self)@ == (RecordView {
                data: ConfigView { logo_path: p@, ..old(self)@.data },
                dirty: true,
                ..old(self)@
            }),
    {
        let mut path: Vec<u8> = Vec::new();
        crate::bytes::append_bytes(&mut path, p);
        assert(path@ =~= p@);
        self.data.logo_path = path;
        self.dirty = true;
    }

    pub fn set_resolution(&mut self, r: Resolution)
        ensures
            final(self)@ == (RecordView {
                data: ConfigView { resolution: r, ..old(self)@.data },
                dirty: true,
                ..old(self)@
            }),
    {
        self.data.resolution = r;
        self.dirty = true;
    }

    /// What the backing file must become when the store is released, given the
    /// encoding of the current record.
    pub fn release(&self, encoded: &[u8]) -> (r: Option<Vec<u8>>)
        ensures
            match r {
                Some(t) => record_released(self@, encoded@) == Some(t@),
                None => record_released(self@, encoded@) is None,
            },
    {
        if self.dirty {
            Some(pad_to(encoded, self.stored_len))
        } else {
            None
        }
    }
}

} // verus!
