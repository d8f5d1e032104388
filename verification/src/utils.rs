//! Choosing the blocks that an edit works on, and what goes with it.

use crate::commands::fill::key_pos;
use crate::commands::names_view;
use crate::map_block::wire::u16_bytes;
use crate::map_block::wire::write_u16;
use crate::search::find_bytes;
use crate::search::occurs;
use crate::spatial::area::Area;
use crate::spatial::area::lemma_contained_blocks_exact;
use crate::spatial::area::lemma_touching_blocks_exact;
use crate::spatial::vec3::Vec3;
use crate::text::all_ascii;
use crate::text::ascii_chars;
use crate::text::ascii_string;
use crate::text::decimal_digits;
use crate::text::lemma_decimal_digits_ascii;
use crate::text::push_digits;
use std::collections::HashMap;
use std::collections::VecDeque;
use vstd::prelude::*;
use vstd::string::StrSliceExecFns;
use vstd::string::StringSliceAdditionalSpecFns;
use vstd::utf8::encode_utf8;

verus! {

/// What is searched for in a stored block to find a name: the name behind
/// its length in two bytes, as it stands among the block's names. The
/// length is cut to 16 bits.
pub open spec fn name_pattern(name: Seq<u8>) -> Seq<u8> {
    u16_bytes(name.len() as u16) + name
}

/// The block positions that a query looks at, or `None` where it looks at
/// all or at none. Where partial blocks count the same as `invert` says,
/// these are the blocks wholly within `area`; else those that touch it.
pub open spec fn query_block_area(area: Option<Area>, invert: bool, include_partial: bool) -> Option<
    Area,
> {
    match area {
        Some(a) => if invert == include_partial {
            if a.contained_blocks().is_valid() {
                Some(a.contained_blocks())
            } else {
                None
            }
        } else {
            Some(a.touching_blocks())
        },
        None => None,
    }
}

/// Whether one of `names` stands, behind its length, in the stored block
/// `data`.
pub open spec fn has_any_name(data: Seq<u8>, names: Seq<Seq<u8>>) -> bool {
    exists|i: int| 0 <= i < names.len() && occurs(data, name_pattern(#[trigger] names[i]))
}

/// Whether a query selects the row with the key `key` and the block
/// `data`.
///
/// Where an area is given, the block's position must lie in the block
/// area of the query, or outside it where `invert` is set; an area that
/// holds no block selects nothing, or everything where `invert` is set.
/// Where names are given, one of them must stand in a block of a version
/// up to 28; blocks of later versions are packed as a whole and always
/// pass.
pub open spec fn row_selected(
    key: i64,
    data: Seq<u8>,
    names: Seq<Seq<u8>>,
    area: Option<Area>,
    invert: bool,
    include_partial: bool,
) -> bool {
    let block_area = query_block_area(area, invert, include_partial);
    let empty_area = area is Some && block_area is None;
    &&& !empty_area || invert
    &&& !empty_area ==> (block_area matches Some(a) ==> a.contains(key_pos(key)) != invert)
    &&& data.len() > 0 && data[0] <= 28 && names.len() > 0 ==> has_any_name(data, names)
}

/// A query for the keys of the blocks that an edit works on.
pub struct KeyQuery {
    patterns: Vec<Vec<u8>>,
    block_area: Option<Area>,
    empty_area: bool,
    invert: bool,
    names: Ghost<Seq<Seq<u8>>>,
    area: Ghost<Option<Area>>,
    include_partial: Ghost<bool>,
}

impl KeyQuery {
    #[verifier::type_invariant]
    spec fn well_formed(&self) -> bool {
        &&& self.block_area == query_block_area(self.area@, self.invert, self.include_partial@)
        &&& self.empty_area == (self.area@ is Some && self.block_area is None)
        &&& self.patterns@.len() == self.names@.len()
        &&& forall|i: int|
            0 <= i < self.patterns@.len() ==> (#[trigger] self.patterns@[i])@ == name_pattern(
                self.names@[i],
            )
    }

    /// The names that are searched for.
    pub closed spec fn names(&self) -> Seq<Seq<u8>> {
        self.names@
    }

    /// The area that was asked for.
    pub closed spec fn area(&self) -> Option<Area> {
        self.area@
    }

    pub closed spec fn invert(&self) -> bool {
        self.invert
    }

    pub closed spec fn include_partial(&self) -> bool {
        self.include_partial@
    }

    /// A query for the blocks that hold one of the names `search_strs`,
    /// if any are given, and that lie in `area`, if one is given: outside
    /// it where `invert` is set. `include_partial` says whether blocks
    /// count that lie partly in the selection.
    pub fn new(
        search_strs: &Vec<Vec<u8>>,
        area: Option<Area>,
        invert: bool,
        include_partial: bool,
    ) -> (q: Self)
        ensures
            q.names() == names_view(search_strs@),
            q.area() == area,
            q.invert() == invert,
            q.include_partial() == include_partial,
    {
        // The length in 16 bits before each name makes a false match less
        // likely.
        let mut patterns: Vec<Vec<u8>> = Vec::new();
        let mut i: usize = 0;
        while i < search_strs.len()
            invariant
                i <= search_strs@.len(),
                patterns@.len() == i,
                forall|j: int|
                    0 <= j < i ==> (#[trigger] patterns@[j])@ == name_pattern(
                        names_view(search_strs@)[j],
                    ),
            decreases search_strs@.len() - i,
        {
            let name = &search_strs[i];
            let mut pattern: Vec<u8> = Vec::new();
            write_u16(&mut pattern, name.len() as u16);
            pattern.extend_from_slice(name.as_slice());
            proof {
                assert(names_view(search_strs@)[i as int] == name@);
                assert(pattern@ =~= name_pattern(name@));
            }
            patterns.push(pattern);
            i = i + 1;
        }
        let block_area: Option<Area> = match area {
            Some(a) => if invert == include_partial {
                a.to_contained_block_area()
            } else {
                Some(a.to_touching_block_area())
            },
            None => None,
        };
        let empty_area = area.is_some() && block_area.is_none();
        KeyQuery {
            patterns,
            block_area,
            empty_area,
            invert,
            names: Ghost(names_view(search_strs@)),
            area: Ghost(area),
            include_partial: Ghost(include_partial),
        }
    }

    /// Whether the query can select any row. Where it cannot, the rows
    /// need not be read.
    pub fn scans(&self) -> (r: bool)
        ensures
            r == (self.invert() || !(self.area() is Some && query_block_area(
                self.area(),
                self.invert(),
                self.include_partial(),
            ) is None)),
            !r ==> forall|key: i64, data: Seq<u8>|
                !row_selected(
                    key,
                    data,
                    self.names(),
                    self.area(),
                    self.invert(),
                    self.include_partial(),
                ),
    {
        proof {
            use_type_invariant(self);
        }
        !self.empty_area || self.invert
    }

    /// Whether the query selects the row with the key `key` and the block
    /// `data`.
    pub fn selects(&self, key: i64, data: &[u8]) -> (r: bool)
        ensures
            r == row_selected(
                key,
                data@,
                self.names(),
                self.area(),
                self.invert(),
                self.include_partial(),
            ),
    {
        proof {
            use_type_invariant(self);
        }
        if self.empty_area && !self.invert {
            return false;
        }
        if !self.empty_area {
            if let Some(a) = &self.block_area {
                let block_pos = Vec3::from_block_key(key);
                assert(block_pos == key_pos(key));
                if a.contains(block_pos) == self.invert {
                    return false;
                }
            }
        }
        if data.len() > 0 && data[0] <= 28 && self.patterns.len() > 0 {
            // A block of a version up to 28 must hold one of the names.
            let mut i: usize = 0;
            while i < self.patterns.len()
                invariant
                    i <= self.patterns@.len(),
                    self.patterns@.len() == self.names@.len(),
                    data@.len() > 0 && data@[0] <= 28 && self.names@.len() > 0,
                    !self.empty_area || self.invert,
                    self.block_area == query_block_area(
                        self.area@,
                        self.invert,
                        self.include_partial@,
                    ),
                    self.empty_area == (self.area@ is Some && self.block_area is None),
                    !self.empty_area ==> (self.block_area matches Some(a) ==> a.contains(
                        key_pos(key),
                    ) != self.invert),
                    forall|j: int|
                        0 <= j < self.patterns@.len() ==> (#[trigger] self.patterns@[j])@
                            == name_pattern(self.names@[j]),
                    forall|j: int|
                        0 <= j < i ==> !occurs(data@, name_pattern(#[trigger] self.names@[j])),
                decreases self.patterns@.len() - i,
            {
                assert(self.patterns@[i as int]@ == name_pattern(self.names@[i as int]));
                if find_bytes(data, self.patterns[i].as_slice()).is_some() {
                    assert(has_any_name(data@, self.names@));
                    return true;
                }
                i = i + 1;
            }
            return false;
        }
        true
    }
}

/// The keys of those of the first `n` rows that a query selects, in the
/// order of the rows.
pub open spec fn selected_keys(
    rows: Seq<(i64, Vec<u8>)>,
    names: Seq<Seq<u8>>,
    area: Option<Area>,
    invert: bool,
    include_partial: bool,
    n: nat,
) -> Seq<i64>
    decreases n,
{
    if n == 0 {
        Seq::empty()
    } else if row_selected(rows[n - 1].0, rows[n - 1].1@, names, area, invert, include_partial) {
        selected_keys(rows, names, area, invert, include_partial, (n - 1) as nat).push(rows[n - 1].0)
    } else {
        selected_keys(rows, names, area, invert, include_partial, (n - 1) as nat)
    }
}

/// The keys of the rows, each a key and a stored block, that hold one of
/// the names `search_strs`, if any are given, and that lie in `area`, if
/// one is given: outside it where `invert` is set.
///
/// For blocks from version 29 on, all of the block is packed, so the
/// names are not looked at.
pub fn query_keys(
    rows: &Vec<(i64, Vec<u8>)>,
    search_strs: &Vec<Vec<u8>>,
    area: Option<Area>,
    invert: bool,
    include_partial: bool,
) -> (keys: Vec<i64>)
    ensures
        keys@ == selected_keys(
            rows@,
            names_view(search_strs@),
            area,
            invert,
            include_partial,
            rows@.len(),
        ),
{
    let query = KeyQuery::new(search_strs, area, invert, include_partial);
    let mut keys: Vec<i64> = Vec::new();
    let mut i: usize = 0;
    while i < rows.len()
        invariant
            i <= rows@.len(),
            query.names() == names_view(search_strs@),
            query.area() == area,
            query.invert() == invert,
            query.include_partial() == include_partial,
            keys@ == selected_keys(
                rows@,
                names_view(search_strs@),
                area,
                invert,
                include_partial,
                i as nat,
            ),
        decreases rows@.len() - i,
    {
        if query.selects(rows[i].0, rows[i].1.as_slice()) {
            keys.push(rows[i].0);
        }
        i = i + 1;
    }
    keys
}

/// A query without names for the blocks of a valid area, neither
/// inverted, selects exactly the blocks that touch the area where partial
/// blocks count, and exactly those that lie wholly within it where they
/// do not.
pub proof fn lemma_query_selects_area(key: i64, data: Seq<u8>, area: Area, include_partial: bool)
    requires
        area.is_valid(),
    ensures
        row_selected(key, data, Seq::empty(), Some(area), false, include_partial) <==> if include_partial {
            area.touches_block(key_pos(key))
        } else {
            area.contains_block(key_pos(key))
        },
{
    lemma_touching_blocks_exact(area, key_pos(key));
    lemma_contained_blocks_exact(area, key_pos(key));
}

/// A query selects a block from version 29 on whatever names are asked
/// for: such a block is packed as a whole, and a name found in it would
/// be found by chance.
pub proof fn lemma_query_passes_packed(
    key: i64,
    data: Seq<u8>,
    names: Seq<Seq<u8>>,
    area: Option<Area>,
    invert: bool,
    include_partial: bool,
)
    requires
        data.len() > 0,
        data[0] >= 29,
    ensures
        row_selected(key, data, names, area, invert, include_partial) == row_selected(
            key,
            data,
            Seq::empty(),
            area,
            invert,
            include_partial,
        ),
{
}

/// A store of a bounded number of values by key. When it is full, the
/// key that was put in first leaves with its value.
pub struct CacheMap<V> {
    key_queue: VecDeque<i64>,
    map: HashMap<i64, V>,
    cap: usize,
}

impl<V> CacheMap<V> {
    /// The values by key.
    pub closed spec fn view(&self) -> Map<i64, V> {
        self.map@
    }

    /// The keys in the order in which they were put in; a key that was
    /// put in again stands twice.
    pub closed spec fn queue(&self) -> Seq<i64> {
        self.key_queue@
    }

    /// How many keys the queue takes before the oldest leaves.
    pub closed spec fn capacity(&self) -> nat {
        self.cap as nat
    }

    pub fn with_capacity(cap: usize) -> (r: Self)
        ensures
            r@ == Map::<i64, V>::empty(),
            r.queue() == Seq::<i64>::empty(),
            r.capacity() == cap,
    {
        Self { key_queue: VecDeque::with_capacity(cap), map: HashMap::with_capacity(cap), cap }
    }

    /// Puts in `value` under `key`. Where the queue is full, the oldest
    /// key leaves first, with the value that is under it.
    pub fn insert(&mut self, key: i64, value: V)
        requires
            old(self).queue().len() < usize::MAX,
        ensures
            final(self).capacity() == old(self).capacity(),
            old(self).queue().len() >= old(self).capacity() && old(self).queue().len() > 0 ==> {
                &&& final(self).queue() == old(self).queue().subrange(
                    1,
                    old(self).queue().len() as int,
                ).push(key)
                &&& final(self)@ == old(self)@.remove(old(self).queue()[0]).insert(key, value)
            },
            !(old(self).queue().len() >= old(self).capacity() && old(self).queue().len() > 0) ==> {
                &&& final(self).queue() == old(self).queue().push(key)
                &&& final(self)@ == old(self)@.insert(key, value)
            },
    {
        broadcast use vstd::std_specs::hash::group_hash_axioms;

        if self.key_queue.len() >= self.cap {
            match self.key_queue.pop_front() {
                Some(oldest_key) => {
                    self.map.remove(&oldest_key);
                },
                None => {},
            }
        }
        self.key_queue.push_back(key);
        self.map.insert(key, value);
    }

    pub fn get(&self, key: &i64) -> (r: Option<&V>)
        ensures
            match r {
                Some(v) => self@.contains_key(*key) && *v == self@[*key],
                None => !self@.contains_key(*key),
            },
    {
        broadcast use vstd::std_specs::hash::group_hash_axioms;

        self.map.get(key)
    }
}

/// The bytes of a string.
pub fn to_bytes(s: &String) -> (r: Vec<u8>)
    ensures
        r@ == encode_utf8(s@),
{
    s.as_str().as_bytes_vec()
}

/// A slice of the one value, or of none.
pub fn to_slice(opt: &Option<Vec<u8>>) -> (r: &[Vec<u8>])
    ensures
        match opt {
            Some(x) => r@ == seq![*x],
            None => r@.len() == 0,
        },
{
    opt.as_slice()
}

/// The text of a number below 100 in two digits.
pub open spec fn two_digits(v: nat) -> Seq<u8> {
    if v < 10 {
        seq![48u8] + decimal_digits(v)
    } else {
        decimal_digits(v)
    }
}

/// The text of a time of `secs` seconds: minutes and seconds in two
/// digits each, with the hours before them from one hour on.
pub open spec fn duration_text(secs: nat) -> Seq<u8> {
    if secs < 3600 {
        two_digits(secs / 60 % 60) + seq![58u8] + two_digits(secs % 60)
    } else {
        decimal_digits(secs / 3600) + seq![58u8] + two_digits(secs / 60 % 60) + seq![58u8]
            + two_digits(secs % 60)
    }
}

fn push_two_digits(out: &mut Vec<u8>, v: u64)
    ensures
        final(out)@ == old(out)@ + two_digits(v as nat),
{
    let ghost before = out@;
    if v < 10 {
        out.push(48);
    }
    push_digits(out, v);
    assert(out@ =~= before + two_digits(v as nat));
}

/// The text of a time of `secs` seconds.
pub fn fmt_duration(secs: u64) -> (r: String)
    ensures
        r@ == ascii_chars(duration_text(secs as nat)),
{
    let mut out: Vec<u8> = Vec::new();
    if secs >= 3600 {
        push_digits(&mut out, secs / 3600);
        out.push(58);
    }
    push_two_digits(&mut out, secs / 60 % 60);
    out.push(58);
    push_two_digits(&mut out, secs % 60);
    proof {
        assert(out@ =~= duration_text(secs as nat));
        lemma_decimal_digits_ascii((secs / 3600) as nat);
        lemma_decimal_digits_ascii((secs / 60 % 60) as nat);
        lemma_decimal_digits_ascii((secs % 60) as nat);
    }
    ascii_string(&out)
}

} // verus!
