use super::id_map::IdMap;
use super::id_map::lemma_sorted_keys;
use super::id_map::sorted_keys;
use super::wire::ByteReader;
use super::wire::MapBlockError;
use super::wire::bytes_eq;
use super::wire::lemma_parse_fold_err;
use super::wire::lemma_string16_written_is_read;
use super::wire::lemma_u16_written_is_read;
use super::wire::parse_fold;
use super::wire::parse_string16;
use super::wire::parse_u16;
use super::wire::parse_u8;
use super::wire::read_string16;
use super::wire::string16_bytes;
use super::wire::u16_bytes;
use super::wire::write_string16;
use super::wire::write_u16;
use super::wire::write_u8;
use vstd::prelude::*;

verus! {

/// Maps 16-bit node IDs to node names.
#[derive(Clone, Debug)]
pub struct NameIdMap(pub IdMap<Vec<u8>>);

impl View for NameIdMap {
    type V = Map<u16, Seq<u8>>;

    open spec fn view(&self) -> Map<u16, Seq<u8>> {
        self.0@
    }
}

/// Reads one ID with its name at `p` and adds it to `m`. A later name for
/// an ID takes the place of an earlier one.
pub open spec fn name_entry_step() -> spec_fn(Map<u16, Seq<u8>>, Seq<u8>, int) -> Result<
    (Map<u16, Seq<u8>>, int),
    MapBlockError,
> {
    |m: Map<u16, Seq<u8>>, s: Seq<u8>, p: int|
        match parse_u16(s, p) {
            Ok((id, p1)) => match parse_string16(s, p1) {
                Ok((name, p2)) => Ok((m.insert(id, name), p2)),
                Err(e) => Err(e),
            },
            Err(e) => Err(e),
        }
}

/// What reading a name-ID map at `pos` gives: a version byte that must be
/// 0, the number of entries, and the entries.
pub open spec fn parse_name_id_map(s: Seq<u8>, pos: int) -> Result<
    (Map<u16, Seq<u8>>, int),
    MapBlockError,
> {
    match parse_u8(s, pos) {
        Ok((version, p)) => if version != 0 {
            Err(MapBlockError::InvalidSubVersion)
        } else {
            match parse_u16(s, p) {
                Ok((count, p1)) => parse_fold(
                    s,
                    p1,
                    count as nat,
                    Map::<u16, Seq<u8>>::empty(),
                    name_entry_step(),
                ),
                Err(e) => Err(e),
            }
        },
        Err(e) => Err(e),
    }
}

/// The entries of the first `n` of `keys`, each as the ID and the name
/// behind its length.
pub open spec fn name_entries_bytes(keys: Seq<u16>, m: Map<u16, Seq<u8>>, n: nat) -> Seq<u8>
    decreases n,
{
    if n == 0 {
        Seq::empty()
    } else {
        name_entries_bytes(keys, m, (n - 1) as nat) + u16_bytes(keys[n - 1]) + string16_bytes(
            m[keys[n - 1]],
        )
    }
}

/// The bytes of a name-ID map: the version 0, the number of entries, and
/// the entries in the order of their IDs.
pub open spec fn name_id_map_bytes(m: Map<u16, Seq<u8>>) -> Seq<u8> {
    let keys = sorted_keys(m.dom());
    seq![0u8] + u16_bytes(keys.len() as u16) + name_entries_bytes(keys, m, keys.len())
}

/// Whether every name is short enough to be written behind a two-byte
/// length.
pub open spec fn names_fit(m: Map<u16, Seq<u8>>) -> bool {
    forall|k: u16| m.contains_key(k) ==> (#[trigger] m[k]).len() <= u16::MAX
}

/// `m` without `id`, and with each greater ID lowered by one.
pub open spec fn removed_shifted(m: Map<u16, Seq<u8>>, id: u16) -> Map<u16, Seq<u8>> {
    Map::new(
        |k: u16| (k < id && m.contains_key(k)) || (k >= id && k < u16::MAX && m.contains_key((k + 1) as u16)),
        |k: u16|
            if k < id {
                m[k]
            } else {
                m[(k + 1) as u16]
            },
    )
}

/// The state of `remove_shift` when the IDs below `next` have been moved.
spec fn shifted_upto(m: Map<u16, Seq<u8>>, id: u16, next: int) -> Map<u16, Seq<u8>> {
    Map::new(
        |k: u16|
            (k < id && m.contains_key(k)) || (id <= k < next - 1 && m.contains_key((k + 1) as u16))
                || (k >= next && m.contains_key(k)),
        |k: u16|
            if k < id || k >= next {
                m[k]
            } else {
                m[(k + 1) as u16]
            },
    )
}

impl NameIdMap {
    /// A map without entries.
    pub fn new() -> (r: Self)
        ensures
            r@ == Map::<u16, Seq<u8>>::empty(),
    {
        NameIdMap(IdMap::new())
    }

    pub fn deserialize(src: &mut ByteReader) -> (r: Result<Self, MapBlockError>)
        ensures
            final(src).bytes() == old(src).bytes(),
            match parse_name_id_map(old(src).bytes(), old(src).position()) {
                Ok((m, p)) => r matches Ok(got) && got@ == m && final(src).position() == p,
                Err(e) => r matches Err(got) && got == e,
            },
    {
        let version = src.read_u8()?;
        if version != 0 {
            return Err(MapBlockError::InvalidSubVersion);
        }
        let count = src.read_u16()?;
        let ghost s = src.bytes();
        let ghost start = src.position();
        let mut map: IdMap<Vec<u8>> = IdMap::new();
        let mut i: u16 = 0;
        while i < count
            invariant
                i <= count,
                src.bytes() == s,
                old(src).bytes() == s,
                parse_name_id_map(s, old(src).position()) == parse_fold(
                    s,
                    start,
                    count as nat,
                    Map::<u16, Seq<u8>>::empty(),
                    name_entry_step(),
                ),
                parse_fold(s, start, i as nat, Map::<u16, Seq<u8>>::empty(), name_entry_step())
                    == Ok::<(Map<u16, Seq<u8>>, int), MapBlockError>((map@, src.position())),
            decreases count - i,
        {
            proof {
                if parse_fold(s, start, (i + 1) as nat, Map::<u16, Seq<u8>>::empty(), name_entry_step()) is Err {
                    lemma_parse_fold_err(
                        s,
                        start,
                        (i + 1) as nat,
                        count as nat,
                        Map::<u16, Seq<u8>>::empty(),
                        name_entry_step(),
                    );
                }
            }
            let id = src.read_u16()?;
            let name = read_string16(src)?;
            map.insert(id, name);
            i = i + 1;
        }
        Ok(NameIdMap(map))
    }

    pub open spec fn spec_writable(&self) -> bool {
        names_fit(self@)
    }

    /// Whether `serialize` can write every name.
    #[verifier::when_used_as_spec(spec_writable)]
    pub fn writable(&self) -> (b: bool)
        ensures
            b == self.spec_writable(),
    {
        let n = self.0.len();
        let mut i: usize = 0;
        proof {
            lemma_sorted_keys(self@.dom());
        }
        while i < n
            invariant
                i <= n,
                n == sorted_keys(self@.dom()).len(),
                forall|j: int|
                    0 <= j < i ==> self@[#[trigger] sorted_keys(self@.dom())[j]].len() <= u16::MAX,
            decreases n - i,
        {
            if self.0.value_at(i).len() > 0xFFFF {
                proof {
                    lemma_sorted_keys(self@.dom());
                    let k = sorted_keys(self@.dom())[i as int];
                    assert(self@.contains_key(k));
                }
                return false;
            }
            i = i + 1;
        }
        proof {
            lemma_sorted_keys(self@.dom());
            assert forall|k: u16| self@.contains_key(k) implies (#[trigger] self@[k]).len()
                <= u16::MAX by {
                assert(sorted_keys(self@.dom()).contains(k));
                let j = choose|j: int|
                    0 <= j < sorted_keys(self@.dom()).len() && sorted_keys(self@.dom())[j] == k;
                assert(self@[sorted_keys(self@.dom())[j]].len() <= u16::MAX);
            }
        }
        true
    }

    pub fn serialize(&self, dst: &mut Vec<u8>)
        requires
            self.writable(),
        ensures
            final(dst)@ == old(dst)@ + name_id_map_bytes(self@),
    {
        let n = self.0.len();
        let ghost keys = sorted_keys(self@.dom());
        let ghost before = dst@;
        write_u8(dst, 0);
        write_u16(dst, n as u16);
        let ghost head = dst@;
        let mut i: usize = 0;
        while i < n
            invariant
                i <= n,
                n == keys.len(),
                keys == sorted_keys(self@.dom()),
                self.writable(),
                dst@ == head + name_entries_bytes(keys, self@, i as nat),
            decreases n - i,
        {
            let id = self.0.key_at(i);
            let name = self.0.value_at(i);
            let ghost sofar = dst@;
            write_u16(dst, id);
            write_string16(dst, name.as_slice());
            proof {
                assert(dst@ =~= head + name_entries_bytes(keys, self@, (i + 1) as nat));
            }
            i = i + 1;
        }
        proof {
            assert(head =~= before + (seq![0u8] + u16_bytes(n as u16)));
            assert(dst@ =~= before + name_id_map_bytes(self@));
        }
    }

    pub fn len(&self) -> (n: usize)
        ensures
            n == sorted_keys(self@.dom()).len(),
            n <= 65536,
    {
        self.0.len()
    }

    /// The name of `id`, if it has one.
    pub fn get_name(&self, id: u16) -> (r: Option<&Vec<u8>>)
        ensures
            match r {
                Some(name) => self@.contains_key(id) && self@[id] == name@,
                None => !self@.contains_key(id),
            },
    {
        self.0.get(id)
    }

    /// Gives `id` the name `name`, in place of any it had.
    pub fn insert(&mut self, id: u16, name: Vec<u8>)
        ensures
            final(self)@ == old(self)@.insert(id, name@),
    {
        self.0.insert(id, name);
    }

    pub fn clear(&mut self)
        ensures
            final(self)@ == Map::<u16, Seq<u8>>::empty(),
    {
        self.0.clear();
    }

    /// The lowest ID that has the name `name`.
    pub fn get_id(&self, name: &[u8]) -> (r: Option<u16>)
        ensures
            match r {
                Some(id) => {
                    &&& self@.contains_key(id)
                    &&& self@[id] == name@
                    &&& forall|k: u16| k < id && self@.contains_key(k) ==> self@[k] != name@
                },
                None => forall|k: u16| self@.contains_key(k) ==> self@[k] != name@,
            },
    {
        let n = self.0.len();
        let ghost keys = sorted_keys(self@.dom());
        proof {
            lemma_sorted_keys(self@.dom());
        }
        let mut i: usize = 0;
        while i < n
            invariant
                i <= n,
                n == keys.len(),
                keys == sorted_keys(self@.dom()),
                forall|j: int| 0 <= j < i ==> self@[#[trigger] keys[j]] != name@,
            decreases n - i,
        {
            if bytes_eq(self.0.value_at(i).as_slice(), name) {
                let id = self.0.key_at(i);
                proof {
                    lemma_sorted_keys(self@.dom());
                    assert forall|k: u16| k < id && self@.contains_key(k) implies self@[k]
                        != name@ by {
                        assert(keys.contains(k));
                        let j = choose|j: int| 0 <= j < keys.len() && keys[j] == k;
                        if j >= i {
                            if j > i {
                                assert(keys[i as int] < keys[j]);
                            }
                        } else {
                            assert(self@[keys[j]] != name@);
                        }
                    }
                }
                return Some(id);
            }
            i = i + 1;
        }
        proof {
            lemma_sorted_keys(self@.dom());
            assert forall|k: u16| self@.contains_key(k) implies self@[k] != name@ by {
                assert(keys.contains(k));
                let j = choose|j: int| 0 <= j < keys.len() && keys[j] == k;
                assert(self@[keys[j]] != name@);
            }
        }
        None
    }

    /// The greatest ID, if there is any.
    pub fn get_max_id(&self) -> (r: Option<u16>)
        ensures
            match r {
                Some(k) => self@.contains_key(k) && forall|j: u16|
                    self@.contains_key(j) ==> j <= k,
                None => self@ == Map::<u16, Seq<u8>>::empty(),
            },
    {
        self.0.max_key()
    }

    /// Removes the name at `id` and moves every greater ID down by one.
    pub fn remove_shift(&mut self, id: u16)
        ensures
            final(self)@ == removed_shifted(old(self)@, id),
    {
        let ghost m = self@;
        let max: u16 = match self.0.max_key() {
            Some(k) => k,
            None => 0,
        };
        self.0.remove(id);
        let mut next: u32 = id as u32 + 1;
        assert(self@ =~= shifted_upto(m, id, next as int));
        while next <= max as u32
            invariant
                id < next <= 65536,
                max <= 65535,
                forall|j: u16| m.contains_key(j) ==> j <= max,
                self@ == shifted_upto(m, id, next as int),
            decreases 65536 - next,
        {
            let k: u16 = next as u16;
            let ghost cur = self@;
            match self.0.remove(k) {
                Some(name) => {
                    self.0.insert((k - 1) as u16, name);
                },
                None => {},
            }
            next = next + 1;
            assert(self@ =~= shifted_upto(m, id, next as int));
        }
        assert(self@ =~= removed_shifted(m, id));
    }
}

/// The names of the first `i` of `keys`.
spec fn names_upto(m: Map<u16, Seq<u8>>, keys: Seq<u16>, i: int) -> Map<u16, Seq<u8>> {
    Map::new(|k: u16| exists|c: int| 0 <= c < i && keys[c] == k, |k: u16| m[k])
}

/// The entries of the first `k` keys stand at the front of the entries of
/// the first `n`.
proof fn lemma_name_entries_prefix(keys: Seq<u16>, m: Map<u16, Seq<u8>>, k: nat, n: nat)
    requires
        k <= n <= keys.len(),
    ensures
        name_entries_bytes(keys, m, k).len() <= name_entries_bytes(keys, m, n).len(),
        name_entries_bytes(keys, m, n).subrange(0, name_entries_bytes(keys, m, k).len() as int)
            == name_entries_bytes(keys, m, k),
    decreases n,
{
    if k < n {
        lemma_name_entries_prefix(keys, m, k, (n - 1) as nat);
        let head = name_entries_bytes(keys, m, k);
        let before = name_entries_bytes(keys, m, (n - 1) as nat);
        let all = name_entries_bytes(keys, m, n);
        assert(all.subrange(0, head.len() as int) =~= before.subrange(0, head.len() as int));
    } else {
        let all = name_entries_bytes(keys, m, n);
        assert(all.subrange(0, all.len() as int) =~= all);
    }
}

/// An ID with its name that was written is read back and entered.
proof fn lemma_name_entry_step(
    s: Seq<u8>,
    p: int,
    id: u16,
    name: Seq<u8>,
    acc: Map<u16, Seq<u8>>,
)
    requires
        0 <= p,
        name.len() <= u16::MAX,
        p + 4 + name.len() <= s.len(),
        s.subrange(p, p + 4 + name.len()) == u16_bytes(id) + string16_bytes(name),
    ensures
        name_entry_step()(acc, s, p) == Ok::<(Map<u16, Seq<u8>>, int), MapBlockError>(
            (acc.insert(id, name), p + 4 + name.len()),
        ),
{
    let one = u16_bytes(id) + string16_bytes(name);
    let n = name.len() as int;
    assert(s.subrange(p, p + 2) =~= one.subrange(0, 2));
    assert(one.subrange(0, 2) =~= u16_bytes(id));
    assert(s.subrange(p + 2, p + 4 + n) =~= one.subrange(2, 4 + n));
    assert(one.subrange(2, 4 + n) =~= string16_bytes(name));
    lemma_u16_written_is_read(s, p, id);
    lemma_string16_written_is_read(s, p + 2, name);
}

/// The first `i` of the entries that stand in `s` from `start` on are
/// read back.
proof fn lemma_names_fold(s: Seq<u8>, start: int, m: Map<u16, Seq<u8>>, i: nat)
    requires
        0 <= start,
        i <= sorted_keys(m.dom()).len(),
        names_fit(m),
        start + name_entries_bytes(sorted_keys(m.dom()), m, sorted_keys(m.dom()).len()).len()
            <= s.len(),
        s.subrange(
            start,
            start + name_entries_bytes(
                sorted_keys(m.dom()),
                m,
                sorted_keys(m.dom()).len(),
            ).len() as int,
        ) == name_entries_bytes(sorted_keys(m.dom()), m, sorted_keys(m.dom()).len()),
    ensures
        parse_fold(s, start, i, Map::<u16, Seq<u8>>::empty(), name_entry_step()) == Ok::<
            (Map<u16, Seq<u8>>, int),
            MapBlockError,
        >(
            (
                names_upto(m, sorted_keys(m.dom()), i as int),
                start + name_entries_bytes(sorted_keys(m.dom()), m, i).len() as int,
            ),
        ),
    decreases i,
{
    let keys = sorted_keys(m.dom());
    lemma_sorted_keys(m.dom());
    if i == 0 {
        assert(names_upto(m, keys, 0) =~= Map::<u16, Seq<u8>>::empty());
    } else {
        let k = (i - 1) as nat;
        lemma_names_fold(s, start, m, k);
        lemma_name_entries_prefix(keys, m, i, keys.len());
        let all = name_entries_bytes(keys, m, keys.len());
        let upto = name_entries_bytes(keys, m, i);
        let before = name_entries_bytes(keys, m, k);
        let id = keys[k as int];
        let name = m[id];
        assert(m.contains_key(id));
        let p: int = start + before.len() as int;
        assert(upto =~= before + u16_bytes(id) + string16_bytes(name));
        assert(s.subrange(p, p + 4 + name.len() as int) =~= all.subrange(
            before.len() as int,
            upto.len() as int,
        ));
        assert(all.subrange(before.len() as int, upto.len() as int) =~= all.subrange(
            0,
            upto.len() as int,
        ).subrange(before.len() as int, upto.len() as int));
        assert(upto.subrange(before.len() as int, upto.len() as int) =~= u16_bytes(id)
            + string16_bytes(name));
        lemma_name_entry_step(s, p, id, name, names_upto(m, keys, k as int));
        let want = names_upto(m, keys, i as int);
        let got = names_upto(m, keys, k as int).insert(id, name);
        assert forall|j: u16| want.contains_key(j) <==> got.contains_key(j) by {
            if want.contains_key(j) {
                let c = choose|c: int| 0 <= c < i && keys[c] == j;
                if c < k {
                    assert(names_upto(m, keys, k as int).contains_key(j));
                }
            }
            if names_upto(m, keys, k as int).contains_key(j) {
                let c = choose|c: int| 0 <= c < k && keys[c] == j;
                assert(0 <= c < i && keys[c] == j);
            }
            if j == id {
                assert(0 <= k < i && keys[k as int] == j);
            }
        }
        assert(want =~= got);
    }
}

/// Names that were written are read back as they were, wherever they
/// stand, if there are few enough for their number to be written and each
/// is short enough.
pub proof fn lemma_names_written_are_read(s: Seq<u8>, p: int, m: Map<u16, Seq<u8>>)
    requires
        0 <= p,
        sorted_keys(m.dom()).len() <= u16::MAX,
        names_fit(m),
        p + name_id_map_bytes(m).len() <= s.len(),
        s.subrange(p, p + name_id_map_bytes(m).len() as int) == name_id_map_bytes(m),
    ensures
        parse_name_id_map(s, p) == Ok::<(Map<u16, Seq<u8>>, int), MapBlockError>(
            (m, p + name_id_map_bytes(m).len() as int),
        ),
{
    let keys = sorted_keys(m.dom());
    let all = name_id_map_bytes(m);
    let entries = name_entries_bytes(keys, m, keys.len());
    lemma_sorted_keys(m.dom());
    assert(s[p] == all[0]);
    assert(s.subrange(p + 1, p + 3) =~= all.subrange(1, 3));
    assert(all.subrange(1, 3) =~= u16_bytes(keys.len() as u16));
    lemma_u16_written_is_read(s, p + 1, keys.len() as u16);
    assert(s.subrange(p + 3, p + 3 + entries.len() as int) =~= all.subrange(
        3,
        3 + entries.len() as int,
    ));
    assert(all.subrange(3, 3 + entries.len() as int) =~= entries);
    lemma_names_fold(s, p + 3, m, keys.len());
    let got = names_upto(m, keys, keys.len() as int);
    assert forall|j: u16| got.contains_key(j) <==> m.contains_key(j) by {
        if got.contains_key(j) {
            let c = choose|c: int| 0 <= c < keys.len() && keys[c] == j;
            assert(m.dom().contains(keys[c]));
        }
        if m.contains_key(j) {
            assert(keys.contains(j));
            let c = choose|c: int| 0 <= c < keys.len() && keys[c] == j;
            assert(0 <= c < keys.len() && keys[c] == j);
        }
    }
    assert(got =~= m);
}

} // verus!
