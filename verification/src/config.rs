//! The cursor over a buffer and the named values that fields of one record
//! pass to later fields.

use vstd::prelude::*;
use vstd::hash_map::StringHashMap;
use vstd::string::StrSliceExecFns;

verus! {

/// What a [`SerializerConfig`] holds, as mathematical values.
pub struct ConfigView {
    /// Named flags published by toggle source fields.
    pub toggles: Map<Seq<char>, bool>,
    /// Named lengths published by length source fields.
    pub lengths: Map<Seq<char>, usize>,
    /// Named variant indices published by variant source fields.
    pub variants: Map<Seq<char>, u8>,
    /// Bits already used in the byte at `pos`.
    pub bits: u8,
    /// Byte position of the cursor.
    pub pos: usize,
    /// Variant index that the next tagged union takes instead of reading one.
    pub discriminator: Option<u8>,
}

impl ConfigView {
    /// A cursor at the start of a buffer with nothing published.
    pub open spec fn empty() -> ConfigView {
        ConfigView {
            toggles: Map::empty(),
            lengths: Map::empty(),
            variants: Map::empty(),
            bits: 0,
            pos: 0,
            discriminator: None,
        }
    }

    /// The bit offset is at most a whole byte, and the position just behind a
    /// byte in progress fits the machine word.
    pub open spec fn wf(self) -> bool {
        &&& self.bits <= 8
        &&& self.bits != 0 ==> self.pos < usize::MAX
    }

    /// The position behind the byte in progress: a partially used byte counts
    /// as occupied.
    pub open spec fn logical_pos(self) -> int {
        if self.bits == 0 {
            self.pos as int
        } else {
            self.pos + 1
        }
    }

    /// The cursor lies within the bytes written so far, so that a writer can
    /// go on from it.
    pub open spec fn can_write(self, written: Seq<u8>) -> bool {
        self.wf() && self.logical_pos() <= written.len()
    }

    /// The cursor after alignment to a byte boundary. A reader steps over the
    /// byte in progress; a writer has appended that byte already and stays.
    pub open spec fn aligned(self, is_read: bool) -> ConfigView {
        ConfigView {
            bits: 0,
            pos: if self.bits != 0 && is_read {
                (self.pos + 1) as usize
            } else {
                self.pos
            },
            ..self
        }
    }

    /// The flag found under `key`. A key that starts with `!` names the flag
    /// behind the `!` and yields its negation.
    pub open spec fn toggle(self, key: Seq<char>) -> Option<bool> {
        if key.len() > 0 && key[0] == '!' {
            let name = key.subrange(1, key.len() as int);
            if self.toggles.contains_key(name) {
                Some(!self.toggles[name])
            } else {
                None
            }
        } else if self.toggles.contains_key(key) {
            Some(self.toggles[key])
        } else {
            None
        }
    }

    /// The length found under `key`.
    pub open spec fn length(self, key: Seq<char>) -> Option<usize> {
        if self.lengths.contains_key(key) {
            Some(self.lengths[key])
        } else {
            None
        }
    }

    /// The variant index found under `key`.
    pub open spec fn variant(self, key: Seq<char>) -> Option<u8> {
        if self.variants.contains_key(key) {
            Some(self.variants[key])
        } else {
            None
        }
    }
}

/// The named values that fields of one record have published.
pub struct SideChannels {
    toggle_keys: StringHashMap<bool>,
    length_keys: StringHashMap<usize>,
    variant_keys: StringHashMap<u8>,
}

impl SideChannels {
    /// The published flags.
    pub closed spec fn toggles(&self) -> Map<Seq<char>, bool> {
        self.toggle_keys@
    }

    /// The published lengths.
    pub closed spec fn lengths(&self) -> Map<Seq<char>, usize> {
        self.length_keys@
    }

    /// The published variant indices.
    pub closed spec fn variants(&self) -> Map<Seq<char>, u8> {
        self.variant_keys@
    }

    /// Nothing published.
    pub fn new() -> (res: Self)
        ensures
            res.toggles() == Map::<Seq<char>, bool>::empty(),
            res.lengths() == Map::<Seq<char>, usize>::empty(),
            res.variants() == Map::<Seq<char>, u8>::empty(),
    {
        Self {
            toggle_keys: StringHashMap::new(),
            length_keys: StringHashMap::new(),
            variant_keys: StringHashMap::new(),
        }
    }

    fn insert_toggle(&mut self, key: &str, value: bool)
        ensures
            final(self).toggles() == old(self).toggles().insert(key@, value),
            final(self).lengths() == old(self).lengths(),
            final(self).variants() == old(self).variants(),
    {
        self.toggle_keys.insert(key.to_owned(), value);
    }

    fn insert_length(&mut self, key: &str, value: usize)
        ensures
            final(self).toggles() == old(self).toggles(),
            final(self).lengths() == old(self).lengths().insert(key@, value),
            final(self).variants() == old(self).variants(),
    {
        self.length_keys.insert(key.to_owned(), value);
    }

    fn insert_variant(&mut self, key: &str, value: u8)
        ensures
            final(self).toggles() == old(self).toggles(),
            final(self).lengths() == old(self).lengths(),
            final(self).variants() == old(self).variants().insert(key@, value),
    {
        self.variant_keys.insert(key.to_owned(), value);
    }

    fn find_toggle(&self, key: &str) -> (res: Option<bool>)
        ensures
            res == (if self.toggles().contains_key(key@) {
                Some(self.toggles()[key@])
            } else {
                None
            }),
    {
        match self.toggle_keys.get(key) {
            Some(v) => Some(*v),
            None => None,
        }
    }

    fn find_length(&self, key: &str) -> (res: Option<usize>)
        ensures
            res == (if self.lengths().contains_key(key@) {
                Some(self.lengths()[key@])
            } else {
                None
            }),
    {
        match self.length_keys.get(key) {
            Some(v) => Some(*v),
            None => None,
        }
    }

    fn find_variant(&self, key: &str) -> (res: Option<u8>)
        ensures
            res == (if self.variants().contains_key(key@) {
                Some(self.variants()[key@])
            } else {
                None
            }),
    {
        match self.variant_keys.get(key) {
            Some(v) => Some(*v),
            None => None,
        }
    }
}

/// Per-call state of an encode or a decode: the cursor, and the values
/// that fields have published for later fields of the same record.
pub struct SerializerConfig {
    /// What fields have published so far.
    pub keys: SideChannels,
    /// Bits already used in the byte at `pos`, 0 to 8.
    pub bits: u8,
    /// Byte position of the cursor.
    pub pos: usize,
    /// Variant index that the next tagged union takes instead of reading one.
    pub discriminator: Option<u8>,
}

impl View for SerializerConfig {
    type V = ConfigView;

    open spec fn view(&self) -> ConfigView {
        ConfigView {
            toggles: self.keys.toggles(),
            lengths: self.keys.lengths(),
            variants: self.keys.variants(),
            bits: self.bits,
            pos: self.pos,
            discriminator: self.discriminator,
        }
    }
}

impl SerializerConfig {
    /// See [`ConfigView::wf`].
    pub open spec fn wf(&self) -> bool {
        self@.wf()
    }

    /// A cursor at the start of a buffer with nothing published.
    pub fn new() -> (res: Self)
        ensures
            res@ == ConfigView::empty(),
    {
        Self {
            keys: SideChannels::new(),
            bits: 0,
            pos: 0,
            discriminator: None,
        }
    }

    /// The state for an isolated nested object: its own cursor at zero and
    /// nothing inherited from this one.
    pub fn child_scope(&self) -> (res: Self)
        ensures
            res@ == ConfigView::empty(),
    {
        Self::new()
    }

    /// The position that the cursor has after alignment on read.
    pub fn next_reset_bits_pos(&self) -> (res: usize)
        requires
            self.wf(),
        ensures
            res == self@.logical_pos(),
    {
        if self.bits == 0 {
            self.pos
        } else {
            self.pos + 1
        }
    }

    /// Aligns the cursor to a byte boundary.
    pub fn reset_bits(&mut self, is_read: bool)
        requires
            old(self).wf(),
        ensures
            final(self)@ == old(self)@.aligned(is_read),
    {
        if self.bits != 0 && is_read {
            self.pos += 1;
        }
        self.bits = 0;
    }

    /// Publishes a flag under `key`.
    pub fn set_toggle(&mut self, key: &str, value: bool)
        ensures
            final(self)@ == (ConfigView {
                toggles: old(self)@.toggles.insert(key@, value),
                ..old(self)@
            }),
    {
        self.keys.insert_toggle(key, value);
    }

    /// Publishes a length under `key`.
    pub fn set_length(&mut self, key: &str, value: usize)
        ensures
            final(self)@ == (ConfigView {
                lengths: old(self)@.lengths.insert(key@, value),
                ..old(self)@
            }),
    {
        self.keys.insert_length(key, value);
    }

    /// Publishes a variant index under `key`.
    pub fn set_variant(&mut self, key: &str, value: u8)
        ensures
            final(self)@ == (ConfigView {
                variants: old(self)@.variants.insert(key@, value),
                ..old(self)@
            }),
    {
        self.keys.insert_variant(key, value);
    }

    /// Looks a flag up. A key that starts with `!` yields the negation of the
    /// flag named behind the `!`.
    pub fn get_toggle(&self, key: &str) -> (res: Option<bool>)
        ensures
            res == self@.toggle(key@),
    {
        let n: usize = key.unicode_len();
        if n > 0 && key.get_char(0) == '!' {
            let name = key.substring_char(1, n);
            match self.keys.find_toggle(name) {
                Some(v) => Some(!v),
                None => None,
            }
        } else {
            self.keys.find_toggle(key)
        }
    }

    /// Looks a length up.
    pub fn get_length(&self, key: &str) -> (res: Option<usize>)
        ensures
            res == self@.length(key@),
    {
        self.keys.find_length(key)
    }

    /// Looks a variant index up.
    pub fn get_variant(&self, key: &str) -> (res: Option<u8>)
        ensures
            res == self@.variant(key@),
    {
        self.keys.find_variant(key)
    }

    /// Puts the cursor back to the start and forgets a pending variant index.
    /// What fields have published stays.
    pub fn reset(&mut self)
        ensures
            final(self)@ == (ConfigView { bits: 0, pos: 0, discriminator: None, ..old(self)@ }),
    {
        self.bits = 0;
        self.pos = 0;
        self.discriminator = None;
    }
}

} // verus!
