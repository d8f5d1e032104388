use crate::search::find_bytes;
use crate::search::first_occurrence;
use crate::search::is_first_occurrence;
use crate::search::lemma_first_occurrence;
use crate::search::occurs_at;
use super::compression::ZlibContainer;
use super::compression::zlib_compress;
use super::compression::zlib_decompress;
use super::compression::zlib_deflate;
use super::compression::zlib_inflate;
use super::id_map::IdMap;
use super::id_map::lemma_sorted_keys;
use super::id_map::sorted_keys;
use super::wire::ByteReader;
use super::wire::MapBlockError;
use super::wire::bytes_eq;
use super::wire::lemma_parse_fold_err;
use super::wire::lemma_string16_written_is_read;
use super::wire::lemma_u16_written_is_read;
use super::wire::lemma_u32_written_is_read;
use super::wire::parse_fold;
use super::wire::parse_string16;
use super::wire::parse_string32;
use super::wire::parse_u16;
use super::wire::parse_u32;
use super::wire::parse_u8;
use super::wire::read_string16;
use super::wire::read_string32;
use super::wire::string16_bytes;
use super::wire::string32_bytes;
use super::wire::try_read_n;
use super::wire::u16_bytes;
use super::wire::u32_bytes;
use super::wire::write_string16;
use super::wire::write_string32;
use super::wire::write_u16;
use super::wire::write_u32;
use super::wire::write_u8;
use vstd::prelude::*;
use vstd::slice::slice_subrange;
use vstd::slice::slice_to_vec;

verus! {

/// The line that ends the inventory of a node: `EndInventory` and a
/// newline.
pub open spec fn end_marker() -> Seq<u8> {
    seq![69u8, 110u8, 100u8, 73u8, 110u8, 118u8, 101u8, 110u8, 116u8, 111u8, 114u8, 121u8, 10u8]
}

/// The line that ends the inventory of a node.
pub fn end_marker_bytes() -> (r: Vec<u8>)
    ensures
        r@ == end_marker(),
{
    let r = vec![69u8, 110u8, 100u8, 73u8, 110u8, 118u8, 101u8, 110u8, 116u8, 111u8, 114u8, 121u8, 10u8];
    assert(r@ =~= end_marker());
    r
}

/// One variable of a node's metadata.
#[derive(Clone, Debug)]
pub struct MetaVar {
    pub name: Vec<u8>,
    pub value: Vec<u8>,
    pub private: bool,
}

/// What a variable holds.
pub struct MetaVarView {
    pub name: Seq<u8>,
    pub value: Seq<u8>,
    pub private: bool,
}

impl View for MetaVar {
    type V = MetaVarView;

    open spec fn view(&self) -> MetaVarView {
        MetaVarView { name: self.name@, value: self.value@, private: self.private }
    }
}

impl DeepView for MetaVar {
    type V = MetaVarView;

    open spec fn deep_view(&self) -> MetaVarView {
        self@
    }
}

/// What the metadata of a node holds: its variables, no two of one name,
/// and its inventory as text.
pub struct NodeMetadataView {
    pub vars: Seq<MetaVarView>,
    pub inv: Seq<u8>,
}

/// Whether no two of `vars` have the same name.
pub open spec fn names_unique(vars: Seq<MetaVarView>) -> bool {
    forall|i: int, j: int| 0 <= i < j < vars.len() ==> vars[i].name != vars[j].name
}

/// Whether one of `vars` has the name `name`.
pub open spec fn has_var(vars: Seq<MetaVarView>, name: Seq<u8>) -> bool {
    exists|i: int| 0 <= i < vars.len() && vars[i].name == name
}

/// The index of a variable with the name `name`.
pub open spec fn var_index(vars: Seq<MetaVarView>, name: Seq<u8>) -> int {
    choose|i: int| 0 <= i < vars.len() && vars[i].name == name
}

/// `vars` with `var` in place of the variable of its name, or behind the
/// others if there is none of its name.
pub open spec fn vars_with(vars: Seq<MetaVarView>, var: MetaVarView) -> Seq<MetaVarView> {
    if has_var(vars, var.name) {
        vars.update(var_index(vars, var.name), var)
    } else {
        vars.push(var)
    }
}

/// `vars` without the variable of the name `name`.
pub open spec fn vars_without(vars: Seq<MetaVarView>, name: Seq<u8>) -> Seq<MetaVarView> {
    if has_var(vars, name) {
        vars.remove(var_index(vars, name))
    } else {
        vars
    }
}

/// Where names are unique, a variable's name gives its index.
pub proof fn lemma_var_index(vars: Seq<MetaVarView>, i: int)
    requires
        names_unique(vars),
        0 <= i < vars.len(),
    ensures
        has_var(vars, vars[i].name),
        var_index(vars, vars[i].name) == i,
{
    let j = var_index(vars, vars[i].name);
    if j < i {
        assert(vars[j].name != vars[i].name);
    } else if i < j {
        assert(vars[i].name != vars[j].name);
    }
}

/// Setting and removing a variable keep names unique.
pub proof fn lemma_vars_stay_unique(vars: Seq<MetaVarView>, var: MetaVarView)
    requires
        names_unique(vars),
    ensures
        names_unique(vars_with(vars, var)),
        names_unique(vars_without(vars, var.name)),
{
    let with = vars_with(vars, var);
    assert forall|i: int, j: int| 0 <= i < j < with.len() implies with[i].name != with[j].name by {
        if has_var(vars, var.name) {
            assert(vars[i].name != vars[j].name);
        } else if j < vars.len() {
            assert(vars[i].name != vars[j].name);
        }
    }
    let without = vars_without(vars, var.name);
    assert forall|i: int, j: int| 0 <= i < j < without.len() implies without[i].name
        != without[j].name by {
        if has_var(vars, var.name) {
            let k = var_index(vars, var.name);
            let i0 = if i < k { i } else { i + 1 };
            let j0 = if j < k { j } else { j + 1 };
            assert(vars[i0].name != vars[j0].name);
        } else {
            assert(vars[i].name != vars[j].name);
        }
    }
}

/// Reads one variable at `p` and sets it in `vars`. From version 2 on a
/// variable has a byte that says whether it is private.
pub open spec fn var_step(version: u8) -> spec_fn(Seq<MetaVarView>, Seq<u8>, int) -> Result<
    (Seq<MetaVarView>, int),
    MapBlockError,
> {
    |vars: Seq<MetaVarView>, s: Seq<u8>, p: int|
        match parse_string16(s, p) {
            Ok((name, p1)) => match parse_string32(s, p1) {
                Ok((value, p2)) => if version >= 2 {
                    match parse_u8(s, p2) {
                        Ok((flag, p3)) => Ok(
                            (vars_with(vars, MetaVarView { name, value, private: flag != 0 }), p3),
                        ),
                        Err(e) => Err(e),
                    }
                } else {
                    Ok((vars_with(vars, MetaVarView { name, value, private: false }), p2))
                },
                Err(e) => Err(e),
            },
            Err(e) => Err(e),
        }
}

/// What reading the metadata of one node at `pos` gives: the number of
/// variables, the variables, and the inventory, which reaches to the end of
/// the first end marker.
pub open spec fn parse_metadata(s: Seq<u8>, pos: int, version: u8) -> Result<
    (NodeMetadataView, int),
    MapBlockError,
> {
    match parse_u32(s, pos) {
        Ok((count, p)) => match parse_fold(
            s,
            p,
            count as nat,
            Seq::<MetaVarView>::empty(),
            var_step(version),
        ) {
            Ok((vars, p1)) => match first_occurrence(s.subrange(p1, s.len() as int), end_marker()) {
                Some(end) => Ok(
                    (
                        NodeMetadataView { vars, inv: s.subrange(p1, p1 + end + 13) },
                        p1 + end + 13,
                    ),
                ),
                None => Err(MapBlockError::BadData),
            },
            Err(e) => Err(e),
        },
        Err(e) => Err(e),
    }
}

/// Reads the position and the metadata of one node at `p` and sets them in
/// `m`. Later metadata for a position takes the place of earlier metadata.
pub open spec fn metadata_step(version: u8) -> spec_fn(
    Map<u16, NodeMetadataView>,
    Seq<u8>,
    int,
) -> Result<(Map<u16, NodeMetadataView>, int), MapBlockError> {
    |m: Map<u16, NodeMetadataView>, s: Seq<u8>, p: int|
        match parse_u16(s, p) {
            Ok((pos, p1)) => match parse_metadata(s, p1, version) {
                Ok((meta, p2)) => Ok((m.insert(pos, meta), p2)),
                Err(e) => Err(e),
            },
            Err(e) => Err(e),
        }
}

/// What reading a list of metadata at `pos` gives: a version byte, which
/// is 0 for an empty list and otherwise 1 or 2, the number of nodes, and
/// for each node its position and metadata.
pub open spec fn parse_metadata_list(s: Seq<u8>, pos: int) -> Result<
    (Map<u16, NodeMetadataView>, int),
    MapBlockError,
> {
    match parse_u8(s, pos) {
        Ok((version, p)) => if version > 2 {
            Err(MapBlockError::InvalidSubVersion)
        } else if version == 0 {
            Ok((Map::<u16, NodeMetadataView>::empty(), p))
        } else {
            match parse_u16(s, p) {
                Ok((count, p1)) => parse_fold(
                    s,
                    p1,
                    count as nat,
                    Map::<u16, NodeMetadataView>::empty(),
                    metadata_step(version),
                ),
                Err(e) => Err(e),
            }
        },
        Err(e) => Err(e),
    }
}

/// What reading a list of metadata in a zlib stream at `pos` gives: the
/// list, which stands at the front of what the stream unpacks to, and the
/// bytes of the stream.
pub open spec fn parse_zlib_metadata_list(s: Seq<u8>, pos: int) -> Result<
    ((Map<u16, NodeMetadataView>, Seq<u8>), int),
    MapBlockError,
> {
    match zlib_inflate(s.subrange(pos, s.len() as int)) {
        Some((plain, used)) => match parse_metadata_list(plain, 0) {
            Ok((m, p)) => Ok(((m, s.subrange(pos, pos + used)), pos + used)),
            Err(e) => Err(e),
        },
        None => Err(MapBlockError::BadData),
    }
}

/// Whether metadata has no variable and no list in its inventory. Such
/// metadata is not written.
pub open spec fn metadata_is_empty(v: NodeMetadataView) -> bool {
    v.vars.len() == 0 && end_marker().is_prefix_of(v.inv)
}

/// The bytes of one variable.
pub open spec fn var_bytes(var: MetaVarView, version: u8) -> Seq<u8> {
    string16_bytes(var.name) + string32_bytes(var.value) + if version >= 2 {
        seq![if var.private { 1u8 } else { 0u8 }]
    } else {
        Seq::<u8>::empty()
    }
}

/// The bytes of the first `n` of `vars`.
pub open spec fn vars_bytes(vars: Seq<MetaVarView>, n: nat, version: u8) -> Seq<u8>
    decreases n,
{
    if n == 0 {
        Seq::empty()
    } else {
        vars_bytes(vars, (n - 1) as nat, version) + var_bytes(vars[n - 1], version)
    }
}

/// The bytes of the metadata of one node.
pub open spec fn metadata_bytes(v: NodeMetadataView, version: u8) -> Seq<u8> {
    u32_bytes(v.vars.len() as u32) + vars_bytes(v.vars, v.vars.len(), version) + v.inv
}

/// How many of the nodes at the first `n` of `keys` have metadata that is
/// not empty.
pub open spec fn count_filled(keys: Seq<u16>, m: Map<u16, NodeMetadataView>, n: nat) -> nat
    decreases n,
{
    if n == 0 {
        0
    } else {
        count_filled(keys, m, (n - 1) as nat) + if metadata_is_empty(m[keys[n - 1]]) {
            0nat
        } else {
            1nat
        }
    }
}

/// The bytes of the metadata at the first `n` of `keys`, without those that
/// are empty.
pub open spec fn metadata_records_bytes(
    keys: Seq<u16>,
    m: Map<u16, NodeMetadataView>,
    n: nat,
    version: u8,
) -> Seq<u8>
    decreases n,
{
    if n == 0 {
        Seq::empty()
    } else {
        metadata_records_bytes(keys, m, (n - 1) as nat, version) + if metadata_is_empty(
            m[keys[n - 1]],
        ) {
            Seq::<u8>::empty()
        } else {
            u16_bytes(keys[n - 1]) + metadata_bytes(m[keys[n - 1]], version)
        }
    }
}

/// The version of a list of metadata in a block of the version
/// `block_version`.
pub open spec fn metadata_version(block_version: u8) -> u8 {
    if block_version >= 28 {
        2
    } else {
        1
    }
}

/// The bytes of a list of metadata: a single 0 where no node has metadata
/// that is not empty, else the version, the number of such nodes, and their
/// metadata in the order of the positions.
pub open spec fn metadata_list_bytes(m: Map<u16, NodeMetadataView>, block_version: u8) -> Seq<u8> {
    let keys = sorted_keys(m.dom());
    let count = count_filled(keys, m, keys.len());
    if count == 0 {
        seq![0u8]
    } else {
        seq![metadata_version(block_version)] + u16_bytes(count as u16) + metadata_records_bytes(
            keys,
            m,
            keys.len(),
            metadata_version(block_version),
        )
    }
}

/// Whether every variable is short enough to be written: its name behind a
/// two-byte length and its value behind a four-byte length.
pub open spec fn vars_fit(vars: Seq<MetaVarView>) -> bool {
    forall|i: int|
        0 <= i < vars.len() ==> (#[trigger] vars[i]).name.len() <= u16::MAX && vars[i].value.len()
            <= u32::MAX
}

/// Whether every variable of every node can be written.
pub open spec fn metadata_list_fits(m: Map<u16, NodeMetadataView>) -> bool {
    forall|k: u16| m.contains_key(k) ==> vars_fit((#[trigger] m[k]).vars)
}

/// The zlib stream that a list of metadata is written as: the stream it
/// was read from if that is still kept, or else a new one. `None` where the
/// encoder fails.
pub open spec fn zlib_metadata_list_bytes(
    m: Map<u16, NodeMetadataView>,
    frame: Option<Seq<u8>>,
    block_version: u8,
) -> Option<Seq<u8>> {
    match frame {
        Some(f) => Some(f),
        None => zlib_deflate(metadata_list_bytes(m, block_version)),
    }
}

/// Sets `var` in `vars`, in place of the variable of its name or behind the
/// others.
fn vars_set(vars: &mut Vec<MetaVar>, var: MetaVar)
    requires
        names_unique(old(vars).deep_view()),
    ensures
        final(vars).deep_view() == vars_with(old(vars).deep_view(), var@),
        names_unique(final(vars).deep_view()),
{
    let ghost before = vars.deep_view();
    proof {
        lemma_vars_stay_unique(before, var@);
    }
    let found = vars_find(vars, var.name.as_slice());
    match found {
        Some(i) => {
            vars.set(i, var);
            assert(vars.deep_view() =~= vars_with(before, var@));
        },
        None => {
            vars.push(var);
            assert(vars.deep_view() =~= vars_with(before, var@));
        },
    }
}

/// The index of the variable of the name `name`.
fn vars_find(vars: &Vec<MetaVar>, name: &[u8]) -> (r: Option<usize>)
    requires
        names_unique(vars.deep_view()),
    ensures
        match r {
            Some(i) => has_var(vars.deep_view(), name@) && i == var_index(vars.deep_view(), name@)
                && i < vars@.len(),
            None => !has_var(vars.deep_view(), name@),
        },
{
    let ghost views = vars.deep_view();
    let mut i: usize = 0;
    while i < vars.len()
        invariant
            i <= vars@.len(),
            views == vars.deep_view(),
            views.len() == vars@.len(),
            names_unique(views),
            forall|j: int| 0 <= j < i ==> views[j].name != name@,
        decreases vars@.len() - i,
    {
        assert(views[i as int] == vars@[i as int]@);
        if bytes_eq(vars[i].name.as_slice(), name) {
            proof {
                lemma_var_index(views, i as int);
            }
            return Some(i);
        }
        i = i + 1;
    }
    None
}

/// The metadata of one node: variables, no two of one name, and an
/// inventory as text.
#[derive(Debug)]
pub struct NodeMetadata {
    vars: Vec<MetaVar>,
    inv: Vec<u8>,
}

impl View for NodeMetadata {
    type V = NodeMetadataView;

    closed spec fn view(&self) -> NodeMetadataView {
        NodeMetadataView { vars: self.vars.deep_view(), inv: self.inv@ }
    }
}

impl Clone for NodeMetadata {
    fn clone(&self) -> (r: Self)
        ensures
            r@ == self@,
    {
        proof {
            use_type_invariant(self);
        }
        let mut vars: Vec<MetaVar> = Vec::with_capacity(self.vars.len());
        let mut i: usize = 0;
        assert(vars.deep_view() =~= self.vars.deep_view().subrange(0, 0));
        while i < self.vars.len()
            invariant
                i <= self.vars@.len(),
                vars.deep_view() == self.vars.deep_view().subrange(0, i as int),
            decreases self.vars@.len() - i,
        {
            let var = &self.vars[i];
            let copy = MetaVar {
                name: slice_to_vec(var.name.as_slice()),
                value: slice_to_vec(var.value.as_slice()),
                private: var.private,
            };
            let ghost sofar = vars.deep_view();
            vars.push(copy);
            proof {
                assert(self.vars.deep_view()[i as int] == self.vars@[i as int]@);
                assert(vars.deep_view() =~= sofar.push(copy@));
                assert(vars.deep_view() =~= self.vars.deep_view().subrange(0, i + 1));
            }
            i = i + 1;
        }
        assert(vars.deep_view() =~= self.vars.deep_view());
        Self { vars, inv: slice_to_vec(self.inv.as_slice()) }
    }
}

impl NodeMetadata {
    #[verifier::type_invariant]
    spec fn well_formed(&self) -> bool {
        names_unique(self.vars.deep_view())
    }

    /// Metadata without variables and with the inventory `inv`.
    pub fn new(inv: Vec<u8>) -> (r: Self)
        ensures
            r@ == (NodeMetadataView { vars: Seq::empty(), inv: inv@ }),
    {
        let vars: Vec<MetaVar> = Vec::new();
        assert(vars.deep_view() =~= Seq::<MetaVarView>::empty());
        Self { vars, inv }
    }

    /// The inventory, as text.
    pub fn inv(&self) -> (r: &Vec<u8>)
        ensures
            r@ == self@.inv,
    {
        &self.inv
    }

    pub fn set_inv(&mut self, inv: Vec<u8>)
        ensures
            final(self)@ == (NodeMetadataView { vars: old(self)@.vars, inv: inv@ }),
    {
        proof {
            use_type_invariant(&*self);
        }
        self.inv = inv;
    }

    /// The number of variables.
    pub fn var_count(&self) -> (n: usize)
        ensures
            n == self@.vars.len(),
    {
        self.vars.len()
    }

    /// The `i`-th variable.
    pub fn var_at(&self, i: usize) -> (r: &MetaVar)
        requires
            i < self@.vars.len(),
        ensures
            r@ == self@.vars[i as int],
    {
        assert(self.vars.deep_view()[i as int] == self.vars@[i as int]@);
        &self.vars[i]
    }

    /// The variable of the name `name`, if there is one.
    pub fn get_var(&self, name: &[u8]) -> (r: Option<&MetaVar>)
        ensures
            match r {
                Some(var) => has_var(self@.vars, name@) && var@ == self@.vars[var_index(
                    self@.vars,
                    name@,
                )],
                None => !has_var(self@.vars, name@),
            },
    {
        proof {
            use_type_invariant(self);
        }
        match vars_find(&self.vars, name) {
            Some(i) => {
                assert(self.vars.deep_view()[i as int] == self.vars@[i as int]@);
                Some(&self.vars[i])
            },
            None => None,
        }
    }

    pub fn contains_var(&self, name: &[u8]) -> (b: bool)
        ensures
            b == has_var(self@.vars, name@),
    {
        self.get_var(name).is_some()
    }

    /// Sets the variable of the name `name`, in place of the one of that
    /// name or behind the others.
    pub fn set_var(&mut self, name: Vec<u8>, value: Vec<u8>, private: bool)
        ensures
            final(self)@ == (NodeMetadataView {
                vars: vars_with(old(self)@.vars, MetaVarView { name: name@, value: value@, private }),
                inv: old(self)@.inv,
            }),
    {
        proof {
            use_type_invariant(&*self);
        }
        let mut vars: Vec<MetaVar> = Vec::new();
        assert(vars.deep_view() =~= Seq::<MetaVarView>::empty());
        core::mem::swap(&mut self.vars, &mut vars);
        vars_set(&mut vars, MetaVar { name, value, private });
        core::mem::swap(&mut self.vars, &mut vars);
    }

    /// Takes the variable of the name `name` out, and says whether there
    /// was one.
    pub fn remove_var(&mut self, name: &[u8]) -> (found: bool)
        ensures
            found == has_var(old(self)@.vars, name@),
            final(self)@ == (NodeMetadataView {
                vars: vars_without(old(self)@.vars, name@),
                inv: old(self)@.inv,
            }),
    {
        proof {
            use_type_invariant(&*self);
        }
        match vars_find(&self.vars, name) {
            Some(i) => {
                let mut vars: Vec<MetaVar> = Vec::new();
                assert(vars.deep_view() =~= Seq::<MetaVarView>::empty());
                core::mem::swap(&mut self.vars, &mut vars);
                let ghost before = vars.deep_view();
                vars.remove(i);
                proof {
                    lemma_vars_stay_unique(
                        before,
                        MetaVarView { name: name@, value: Seq::empty(), private: false },
                    );
                    assert(vars.deep_view() =~= vars_without(before, name@));
                }
                core::mem::swap(&mut self.vars, &mut vars);
                true
            },
            None => false,
        }
    }

    /// Reads the metadata of one node from a list of the version `version`.
    pub fn deserialize(src: &mut ByteReader, version: u8) -> (r: Result<Self, MapBlockError>)
        ensures
            final(src).bytes() == old(src).bytes(),
            match parse_metadata(old(src).bytes(), old(src).position(), version) {
                Ok((m, p)) => r matches Ok(got) && got@ == m && final(src).position() == p,
                Err(e) => r matches Err(got) && got == e,
            },
    {
        let var_count = src.read_u32()?;
        let ghost s = src.bytes();
        let ghost start = src.position();
        // The capacity asked for is bounded whatever the count says.
        let mut vars: Vec<MetaVar> = Vec::with_capacity(if var_count < 64 { var_count as usize } else { 64 });
        assert(vars.deep_view() =~= Seq::<MetaVarView>::empty());
        let mut i: u32 = 0;
        while i < var_count
            invariant
                i <= var_count,
                src.bytes() == s,
                old(src).bytes() == s,
                parse_u32(s, old(src).position()) == Ok::<(u32, int), MapBlockError>(
                    (var_count, start),
                ),
                names_unique(vars.deep_view()),
                parse_fold(s, start, i as nat, Seq::<MetaVarView>::empty(), var_step(version))
                    == Ok::<(Seq<MetaVarView>, int), MapBlockError>(
                    (vars.deep_view(), src.position()),
                ),
            decreases var_count - i,
        {
            proof {
                if parse_fold(s, start, (i + 1) as nat, Seq::<MetaVarView>::empty(), var_step(version)) is Err {
                    lemma_parse_fold_err(
                        s,
                        start,
                        (i + 1) as nat,
                        var_count as nat,
                        Seq::<MetaVarView>::empty(),
                        var_step(version),
                    );
                }
            }
            let name = read_string16(src)?;
            let value = read_string32(src)?;
            let private = if version >= 2 {
                src.read_u8()? != 0
            } else {
                false
            };
            vars_set(&mut vars, MetaVar { name, value, private });
            i = i + 1;
        }
        let marker = end_marker_bytes();
        let rest = src.rest();
        let rest_len: usize = rest.len();
        let end = match find_bytes(rest, marker.as_slice()) {
            Some(end) => end,
            None => {
                return Err(MapBlockError::BadData);
            },
        };
        assert(marker@.len() == 13);
        assert(end + 13 <= rest_len);
        let inv = try_read_n(src, end + 13)?;
        Ok(Self { vars, inv })
    }

    /// Writes the metadata for a list of the version `version`.
    pub fn serialize(&self, dst: &mut Vec<u8>, version: u8)
        requires
            vars_fit(self@.vars),
        ensures
            final(dst)@ == old(dst)@ + metadata_bytes(self@, version),
    {
        let ghost before = dst@;
        let ghost views = self@.vars;
        write_u32(dst, self.vars.len() as u32);
        let ghost head = dst@;
        let mut i: usize = 0;
        while i < self.vars.len()
            invariant
                i <= self.vars@.len(),
                views == self.vars.deep_view(),
                views.len() == self.vars@.len(),
                vars_fit(views),
                dst@ == head + vars_bytes(views, i as nat, version),
            decreases self.vars@.len() - i,
        {
            let var = &self.vars[i];
            proof {
                assert(views[i as int] == self.vars@[i as int]@);
                assert(views[i as int].name.len() <= u16::MAX);
            }
            write_string16(dst, var.name.as_slice());
            write_string32(dst, var.value.as_slice());
            if version >= 2 {
                write_u8(dst, if var.private { 1 } else { 0 });
            }
            proof {
                assert(dst@ =~= head + vars_bytes(views, (i + 1) as nat, version));
            }
            i = i + 1;
        }
        dst.extend_from_slice(self.inv.as_slice());
        proof {
            assert(dst@ =~= before + metadata_bytes(self@, version));
        }
    }

    /// Whether the metadata holds no variable and no list in its inventory.
    pub fn is_empty(&self) -> (b: bool)
        ensures
            b == metadata_is_empty(self@),
    {
        if self.vars.len() != 0 || self.inv.len() < 13 {
            return false;
        }
        let marker = end_marker_bytes();
        bytes_eq(slice_subrange(self.inv.as_slice(), 0, 13), marker.as_slice())
    }
}

pub type NodeMetadataList = IdMap<NodeMetadata>;

impl IdMap<NodeMetadata> {
    /// Reads a list of metadata that is not compressed.
    pub fn deserialize(src: &mut ByteReader) -> (r: Result<Self, MapBlockError>)
        ensures
            final(src).bytes() == old(src).bytes(),
            match parse_metadata_list(old(src).bytes(), old(src).position()) {
                Ok((m, p)) => r matches Ok(got) && got@ == m && final(src).position() == p,
                Err(e) => r matches Err(got) && got == e,
            },
    {
        let version = src.read_u8()?;
        if version > 2 {
            return Err(MapBlockError::InvalidSubVersion);
        }
        let mut list: IdMap<NodeMetadata> = IdMap::new();
        if version == 0 {
            return Ok(list);
        }
        let count = src.read_u16()?;
        let ghost s = src.bytes();
        let ghost start = src.position();
        let mut i: u16 = 0;
        while i < count
            invariant
                i <= count,
                src.bytes() == s,
                old(src).bytes() == s,
                parse_metadata_list(s, old(src).position()) == parse_fold(
                    s,
                    start,
                    count as nat,
                    Map::<u16, NodeMetadataView>::empty(),
                    metadata_step(version),
                ),
                parse_fold(
                    s,
                    start,
                    i as nat,
                    Map::<u16, NodeMetadataView>::empty(),
                    metadata_step(version),
                ) == Ok::<(Map<u16, NodeMetadataView>, int), MapBlockError>(
                    (list@, src.position()),
                ),
            decreases count - i,
        {
            proof {
                if parse_fold(
                    s,
                    start,
                    (i + 1) as nat,
                    Map::<u16, NodeMetadataView>::empty(),
                    metadata_step(version),
                ) is Err {
                    lemma_parse_fold_err(
                        s,
                        start,
                        (i + 1) as nat,
                        count as nat,
                        Map::<u16, NodeMetadataView>::empty(),
                        metadata_step(version),
                    );
                }
            }
            let pos = src.read_u16()?;
            let meta = NodeMetadata::deserialize(src, version)?;
            list.insert(pos, meta);
            i = i + 1;
        }
        Ok(list)
    }

    pub open spec fn spec_writable(&self) -> bool {
        metadata_list_fits(self@)
    }

    /// Whether `serialize` can write every variable.
    #[verifier::when_used_as_spec(spec_writable)]
    pub fn writable(&self) -> (b: bool)
        ensures
            b == self.spec_writable(),
    {
        let n = self.len();
        let ghost keys = sorted_keys(self@.dom());
        proof {
            lemma_sorted_keys(self@.dom());
        }
        let mut i: usize = 0;
        while i < n
            invariant
                i <= n,
                n == keys.len(),
                keys == sorted_keys(self@.dom()),
                forall|j: int| 0 <= j < i ==> vars_fit(self@[#[trigger] keys[j]].vars),
            decreases n - i,
        {
            let meta = self.value_at(i);
            let count = meta.var_count();
            let mut j: usize = 0;
            while j < count
                invariant
                    j <= count,
                    count == meta@.vars.len(),
                    i < n,
                    n == keys.len(),
                    keys == sorted_keys(self@.dom()),
                    meta@ == self@[keys[i as int]],
                    forall|k: int|
                        0 <= k < j ==> (#[trigger] meta@.vars[k]).name.len() <= u16::MAX
                            && meta@.vars[k].value.len() <= u32::MAX,
                decreases count - j,
            {
                let var = meta.var_at(j);
                if var.name.len() > 0xFFFF || var.value.len() > 0xFFFF_FFFF {
                    proof {
                        lemma_sorted_keys(self@.dom());
                        assert(self@.contains_key(keys[i as int]));
                        assert(!vars_fit(self@[keys[i as int]].vars));
                    }
                    return false;
                }
                j = j + 1;
            }
            i = i + 1;
        }
        proof {
            lemma_sorted_keys(self@.dom());
            assert forall|k: u16| self@.contains_key(k) implies vars_fit((#[trigger] self@[k]).vars) by {
                assert(keys.contains(k));
                let j = choose|j: int| 0 <= j < keys.len() && keys[j] == k;
                assert(vars_fit(self@[keys[j]].vars));
            }
        }
        true
    }

    /// Writes the list without compressing it, as it stands in a block of
    /// the version `block_version`. Empty metadata is left out.
    pub fn serialize(&self, dst: &mut Vec<u8>, block_version: u8)
        requires
            self.writable(),
        ensures
            final(dst)@ == old(dst)@ + metadata_list_bytes(self@, block_version),
    {
        let n = self.len();
        let ghost keys = sorted_keys(self@.dom());
        let ghost before = dst@;
        proof {
            lemma_sorted_keys(self@.dom());
        }
        let mut count: usize = 0;
        let mut i: usize = 0;
        while i < n
            invariant
                i <= n,
                n == keys.len(),
                n <= 65536,
                keys == sorted_keys(self@.dom()),
                count == count_filled(keys, self@, i as nat),
                count <= i,
            decreases n - i,
        {
            if !self.value_at(i).is_empty() {
                count = count + 1;
            }
            i = i + 1;
        }
        if count == 0 {
            write_u8(dst, 0);
            assert(dst@ =~= before + metadata_list_bytes(self@, block_version));
            return ;
        }
        let version: u8 = if block_version >= 28 { 2 } else { 1 };
        write_u8(dst, version);
        write_u16(dst, count as u16);
        let ghost head = dst@;
        let mut i: usize = 0;
        while i < n
            invariant
                i <= n,
                n == keys.len(),
                keys == sorted_keys(self@.dom()),
                self.writable(),
                forall|j: int| 0 <= j < keys.len() ==> self@.contains_key(#[trigger] keys[j]),
                dst@ == head + metadata_records_bytes(keys, self@, i as nat, version),
            decreases n - i,
        {
            let meta = self.value_at(i);
            if !meta.is_empty() {
                let pos = self.key_at(i);
                proof {
                    assert(self@.contains_key(keys[i as int]));
                    assert(vars_fit(self@[keys[i as int]].vars));
                }
                write_u16(dst, pos);
                meta.serialize(dst, version);
            }
            proof {
                assert(dst@ =~= head + metadata_records_bytes(keys, self@, (i + 1) as nat, version));
            }
            i = i + 1;
        }
        proof {
            assert(head =~= before + (seq![version] + u16_bytes(count as u16)));
            assert(dst@ =~= before + metadata_list_bytes(self@, block_version));
        }
    }
}

impl ZlibContainer<NodeMetadataList> {
    /// Reads a list of metadata from a zlib stream and keeps the stream.
    pub fn read(src: &mut ByteReader) -> (r: Result<Self, MapBlockError>)
        ensures
            final(src).bytes() == old(src).bytes(),
            match parse_zlib_metadata_list(old(src).bytes(), old(src).position()) {
                Ok(((m, f), p)) => r matches Ok(got) && got.value()@ == m && got.frame() == Some(f)
                    && final(src).position() == p,
                Err(e) => r matches Err(got) && got == e,
            },
    {
        let start: usize = src.pos();
        let total: usize = src.get_ref().len();
        let (plain, used) = match zlib_decompress(src.rest()) {
            Some(found) => found,
            None => {
                return Err(MapBlockError::BadData);
            },
        };
        let mut inner = ByteReader::new(plain.as_slice());
        let list = NodeMetadataList::deserialize(&mut inner)?;
        assert(start + used <= total);
        let frame = slice_to_vec(slice_subrange(src.get_ref(), start, start + used));
        src.skip(used);
        Ok(ZlibContainer::with_frame(list, frame))
    }

    /// Writes the stream that the list was read from, if it is still kept,
    /// or else a new one. Returns whether the encoder succeeded.
    pub fn write(&self, dst: &mut Vec<u8>, block_version: u8) -> (ok: bool)
        requires
            self.frame() is None ==> self.value().writable(),
        ensures
            match zlib_metadata_list_bytes(self.value()@, self.frame(), block_version) {
                Some(bytes) => ok && final(dst)@ == old(dst)@ + bytes,
                None => !ok && final(dst)@ == old(dst)@,
            },
    {
        match self.cached() {
            Some(frame) => {
                dst.extend_from_slice(frame.as_slice());
                true
            },
            None => {
                let mut plain: Vec<u8> = Vec::new();
                self.get_ref().serialize(&mut plain, block_version);
                assert(plain@ =~= metadata_list_bytes(self.value()@, block_version));
                match zlib_compress(plain.as_slice()) {
                    Some(packed) => {
                        dst.extend_from_slice(packed.as_slice());
                        true
                    },
                    None => false,
                }
            },
        }
    }
}

/// Whether an inventory ends with the end marker and does not hold it
/// before its end.
pub open spec fn inv_closed(inv: Seq<u8>) -> bool {
    inv.len() >= 13 && is_first_occurrence(inv, end_marker(), inv.len() - 13)
}

/// Whether metadata is read back as it is written in a list of the
/// version `version`: its variables have different names and fit, its
/// inventory is closed, and none of its variables is private where the
/// version has no private flags.
pub open spec fn metadata_plain(v: NodeMetadataView, version: u8) -> bool {
    &&& names_unique(v.vars)
    &&& vars_fit(v.vars)
    &&& v.vars.len() <= u32::MAX
    &&& inv_closed(v.inv)
    &&& version < 2 ==> forall|i: int| 0 <= i < v.vars.len() ==> !(#[trigger] v.vars[i]).private
}

/// The length of what a variable is written as.
spec fn var_len(var: MetaVarView, version: u8) -> int {
    6 + var.name.len() + var.value.len() + if version >= 2 {
        1int
    } else {
        0int
    }
}

/// The variables up to the `k`-th stand at the front of the variables up
/// to the `n`-th.
proof fn lemma_vars_bytes_prefix(vars: Seq<MetaVarView>, k: nat, n: nat, version: u8)
    requires
        k <= n <= vars.len(),
    ensures
        vars_bytes(vars, k, version).len() <= vars_bytes(vars, n, version).len(),
        vars_bytes(vars, n, version).subrange(0, vars_bytes(vars, k, version).len() as int)
            == vars_bytes(vars, k, version),
    decreases n,
{
    if k < n {
        lemma_vars_bytes_prefix(vars, k, (n - 1) as nat, version);
        let head = vars_bytes(vars, k, version);
        let before = vars_bytes(vars, (n - 1) as nat, version);
        let all = vars_bytes(vars, n, version);
        assert(all.subrange(0, head.len() as int) =~= before.subrange(0, head.len() as int));
    } else {
        let all = vars_bytes(vars, n, version);
        assert(all.subrange(0, all.len() as int) =~= all);
    }
}

/// A variable that was written is read back.
proof fn lemma_var_written_is_read(s: Seq<u8>, p: int, var: MetaVarView, version: u8)
    requires
        0 <= p,
        var.name.len() <= u16::MAX,
        var.value.len() <= u32::MAX,
        version < 2 ==> !var.private,
        p + var_len(var, version) <= s.len(),
        s.subrange(p, p + var_len(var, version)) == var_bytes(var, version),
    ensures
        parse_string16(s, p) == Ok::<(Seq<u8>, int), MapBlockError>((var.name, p + 2 + var.name.len())),
        parse_string32(s, p + 2 + var.name.len()) == Ok::<(Seq<u8>, int), MapBlockError>(
            (var.value, p + 6 + var.name.len() + var.value.len()),
        ),
        version >= 2 ==> parse_u8(s, p + 6 + var.name.len() + var.value.len()) == Ok::<
            (u8, int),
            MapBlockError,
        >(
            (
                if var.private {
                    1u8
                } else {
                    0u8
                },
                p + var_len(var, version),
            ),
        ),
{
    let one = var_bytes(var, version);
    let n = var.name.len() as int;
    let m = var.value.len() as int;
    assert(s.subrange(p, p + 2 + n) =~= one.subrange(0, 2 + n));
    assert(one.subrange(0, 2 + n) =~= string16_bytes(var.name));
    lemma_string16_written_is_read(s, p, var.name);
    let q = p + 2 + n;
    assert(s.subrange(q, q + 4) =~= one.subrange(2 + n, 6 + n));
    assert(one.subrange(2 + n, 6 + n) =~= u32_bytes(m as u32));
    lemma_u32_written_is_read(s, q, m as u32);
    assert(s.subrange(q + 4, q + 4 + m) =~= one.subrange(6 + n, 6 + n + m));
    assert(one.subrange(6 + n, 6 + n + m) =~= var.value);
    if version >= 2 {
        assert(s[q + 4 + m] == one[6 + n + m]);
    }
}

/// A variable that was written is read back and set behind the others,
/// if none of them has its name.
proof fn lemma_var_step(s: Seq<u8>, p: int, var: MetaVarView, acc: Seq<MetaVarView>, version: u8)
    requires
        0 <= p,
        var.name.len() <= u16::MAX,
        var.value.len() <= u32::MAX,
        version < 2 ==> !var.private,
        !has_var(acc, var.name),
        p + var_len(var, version) <= s.len(),
        s.subrange(p, p + var_len(var, version)) == var_bytes(var, version),
    ensures
        var_step(version)(acc, s, p) == Ok::<(Seq<MetaVarView>, int), MapBlockError>(
            (acc.push(var), p + var_len(var, version)),
        ),
{
    lemma_var_written_is_read(s, p, var, version);
    let read = MetaVarView {
        name: var.name,
        value: var.value,
        private: if version >= 2 {
            (if var.private {
                1u8
            } else {
                0u8
            }) != 0
        } else {
            false
        },
    };
    assert(read == var);
    assert(vars_with(acc, var) == acc.push(var));
}

/// The place of the `k`-th variable among those that were written.
proof fn lemma_var_place(s: Seq<u8>, start: int, vars: Seq<MetaVarView>, k: nat, version: u8)
    requires
        0 <= start,
        k < vars.len(),
        start + vars_bytes(vars, vars.len(), version).len() <= s.len(),
        s.subrange(start, start + vars_bytes(vars, vars.len(), version).len() as int) == vars_bytes(
            vars,
            vars.len(),
            version,
        ),
    ensures
        vars_bytes(vars, k + 1, version).len() == vars_bytes(vars, k, version).len() + var_len(
            vars[k as int],
            version,
        ),
        start + vars_bytes(vars, k + 1, version).len() <= s.len(),
        s.subrange(
            start + vars_bytes(vars, k, version).len() as int,
            start + vars_bytes(vars, k, version).len() + var_len(vars[k as int], version),
        ) == var_bytes(vars[k as int], version),
{
    let i = k + 1;
    lemma_vars_bytes_prefix(vars, i, vars.len(), version);
    let all = vars_bytes(vars, vars.len(), version);
    let upto = vars_bytes(vars, i, version);
    let before = vars_bytes(vars, k, version);
    let var = vars[k as int];
    let p: int = start + before.len() as int;
    assert(upto == before + var_bytes(var, version));
    assert(var_bytes(var, version).len() == var_len(var, version));
    assert(s.subrange(p, p + var_len(var, version)) =~= all.subrange(
        before.len() as int,
        upto.len() as int,
    ));
    assert(all.subrange(before.len() as int, upto.len() as int) =~= all.subrange(
        0,
        upto.len() as int,
    ).subrange(before.len() as int, upto.len() as int));
    assert(upto.subrange(before.len() as int, upto.len() as int) =~= var_bytes(var, version));
}

/// The first `i` of the variables that stand in `s` from `start` on are
/// read back.
proof fn lemma_vars_fold(s: Seq<u8>, start: int, vars: Seq<MetaVarView>, i: nat, version: u8)
    requires
        0 <= start,
        i <= vars.len(),
        names_unique(vars),
        vars_fit(vars),
        version < 2 ==> forall|j: int| 0 <= j < vars.len() ==> !(#[trigger] vars[j]).private,
        start + vars_bytes(vars, vars.len(), version).len() <= s.len(),
        s.subrange(start, start + vars_bytes(vars, vars.len(), version).len() as int) == vars_bytes(
            vars,
            vars.len(),
            version,
        ),
    ensures
        parse_fold(s, start, i, Seq::<MetaVarView>::empty(), var_step(version)) == Ok::<
            (Seq<MetaVarView>, int),
            MapBlockError,
        >((vars.subrange(0, i as int), start + vars_bytes(vars, i, version).len() as int)),
    decreases i,
{
    if i == 0 {
        assert(vars.subrange(0, 0) =~= Seq::<MetaVarView>::empty());
    } else {
        let k = (i - 1) as nat;
        lemma_vars_fold(s, start, vars, k, version);
        lemma_var_place(s, start, vars, k, version);
        let var = vars[k as int];
        let acc = vars.subrange(0, k as int);
        assert(!has_var(acc, var.name)) by {
            if has_var(acc, var.name) {
                let j = var_index(acc, var.name);
                assert(vars[j].name != vars[k as int].name);
            }
        }
        assert(!var.private || version >= 2);
        lemma_var_step(s, start + vars_bytes(vars, k, version).len() as int, var, acc, version);
        assert(acc.push(var) =~= vars.subrange(0, i as int));
    }
}

/// Metadata that was written is read back as it was, whatever stands
/// behind it, if it is plain.
pub proof fn lemma_metadata_written_is_read(
    s: Seq<u8>,
    p: int,
    v: NodeMetadataView,
    version: u8,
)
    requires
        0 <= p,
        metadata_plain(v, version),
        p + metadata_bytes(v, version).len() <= s.len(),
        s.subrange(p, p + metadata_bytes(v, version).len() as int) == metadata_bytes(v, version),
    ensures
        parse_metadata(s, p, version) == Ok::<(NodeMetadataView, int), MapBlockError>(
            (v, p + metadata_bytes(v, version).len() as int),
        ),
{
    let one = metadata_bytes(v, version);
    let vars = vars_bytes(v.vars, v.vars.len(), version);
    assert(s.subrange(p, p + 4) =~= one.subrange(0, 4));
    assert(one.subrange(0, 4) =~= u32_bytes(v.vars.len() as u32));
    lemma_u32_written_is_read(s, p, v.vars.len() as u32);
    assert(s.subrange(p + 4, p + 4 + vars.len() as int) =~= one.subrange(4, 4 + vars.len() as int));
    assert(one.subrange(4, 4 + vars.len() as int) =~= vars);
    lemma_vars_fold(s, p + 4, v.vars, v.vars.len(), version);
    assert(v.vars.subrange(0, v.vars.len() as int) =~= v.vars);
    let p1 = p + 4 + vars.len() as int;
    let tail = s.subrange(p1, s.len() as int);
    let end = v.inv.len() - 13;
    assert(s.subrange(p1, p1 + v.inv.len() as int) =~= one.subrange(
        4 + vars.len() as int,
        one.len() as int,
    ));
    assert(one.subrange(4 + vars.len() as int, one.len() as int) =~= v.inv);
    assert(is_first_occurrence(tail, end_marker(), end)) by {
        assert(tail.subrange(end, end + 13) =~= v.inv.subrange(end, end + 13));
        assert forall|j: int| 0 <= j < end implies !occurs_at(tail, end_marker(), j) by {
            assert(tail.subrange(j, j + 13) =~= v.inv.subrange(j, j + 13));
            assert(!occurs_at(v.inv, end_marker(), j));
        }
    }
    lemma_first_occurrence(tail, end_marker(), end);
}

/// Whether a list of metadata is read back as it is written in a block of
/// the version `block_version`: the metadata of each node is plain and
/// not empty, and there are few enough nodes for their number to be
/// written.
pub open spec fn metadata_list_plain(m: Map<u16, NodeMetadataView>, block_version: u8) -> bool {
    &&& sorted_keys(m.dom()).len() <= u16::MAX
    &&& forall|k: u16|
        m.contains_key(k) ==> metadata_plain(#[trigger] m[k], metadata_version(block_version))
            && !metadata_is_empty(m[k])
}

/// The metadata at the first `i` of `keys`.
spec fn metadata_upto(m: Map<u16, NodeMetadataView>, keys: Seq<u16>, i: int) -> Map<
    u16,
    NodeMetadataView,
> {
    Map::new(|k: u16| exists|c: int| 0 <= c < i && keys[c] == k, |k: u16| m[k])
}

/// Where no metadata is empty, all of it counts.
proof fn lemma_all_filled(keys: Seq<u16>, m: Map<u16, NodeMetadataView>, n: nat)
    requires
        n <= keys.len(),
        forall|c: int| 0 <= c < keys.len() ==> !metadata_is_empty(m[#[trigger] keys[c]]),
    ensures
        count_filled(keys, m, n) == n,
    decreases n,
{
    if n > 0 {
        lemma_all_filled(keys, m, (n - 1) as nat);
    }
}

/// The records of the first `k` nodes stand at the front of the records
/// of the first `n`.
proof fn lemma_metadata_records_prefix(
    keys: Seq<u16>,
    m: Map<u16, NodeMetadataView>,
    k: nat,
    n: nat,
    version: u8,
)
    requires
        k <= n <= keys.len(),
    ensures
        metadata_records_bytes(keys, m, k, version).len() <= metadata_records_bytes(
            keys,
            m,
            n,
            version,
        ).len(),
        metadata_records_bytes(keys, m, n, version).subrange(
            0,
            metadata_records_bytes(keys, m, k, version).len() as int,
        ) == metadata_records_bytes(keys, m, k, version),
    decreases n,
{
    if k < n {
        lemma_metadata_records_prefix(keys, m, k, (n - 1) as nat, version);
        let head = metadata_records_bytes(keys, m, k, version);
        let before = metadata_records_bytes(keys, m, (n - 1) as nat, version);
        let all = metadata_records_bytes(keys, m, n, version);
        assert(all.subrange(0, head.len() as int) =~= before.subrange(0, head.len() as int));
    } else {
        let all = metadata_records_bytes(keys, m, n, version);
        assert(all.subrange(0, all.len() as int) =~= all);
    }
}

/// The position and the metadata of a node that were written are read
/// back and entered.
proof fn lemma_metadata_step(
    s: Seq<u8>,
    p: int,
    key: u16,
    v: NodeMetadataView,
    acc: Map<u16, NodeMetadataView>,
    version: u8,
)
    requires
        0 <= p,
        metadata_plain(v, version),
        p + 2 + metadata_bytes(v, version).len() <= s.len(),
        s.subrange(p, p + 2 + metadata_bytes(v, version).len() as int) == u16_bytes(key)
            + metadata_bytes(v, version),
    ensures
        metadata_step(version)(acc, s, p) == Ok::<(Map<u16, NodeMetadataView>, int), MapBlockError>(
            (acc.insert(key, v), p + 2 + metadata_bytes(v, version).len() as int),
        ),
{
    let one = u16_bytes(key) + metadata_bytes(v, version);
    let n = metadata_bytes(v, version).len() as int;
    assert(s.subrange(p, p + 2) =~= one.subrange(0, 2));
    assert(one.subrange(0, 2) =~= u16_bytes(key));
    lemma_u16_written_is_read(s, p, key);
    assert(s.subrange(p + 2, p + 2 + n) =~= one.subrange(2, 2 + n));
    assert(one.subrange(2, 2 + n) =~= metadata_bytes(v, version));
    lemma_metadata_written_is_read(s, p + 2, v, version);
}

/// The metadata of the first `i` nodes that stands in `s` from `start` on
/// is read back.
proof fn lemma_metadata_fold(
    s: Seq<u8>,
    start: int,
    m: Map<u16, NodeMetadataView>,
    i: nat,
    block_version: u8,
)
    requires
        0 <= start,
        i <= sorted_keys(m.dom()).len(),
        metadata_list_plain(m, block_version),
        start + metadata_records_bytes(
            sorted_keys(m.dom()),
            m,
            sorted_keys(m.dom()).len(),
            metadata_version(block_version),
        ).len() <= s.len(),
        s.subrange(
            start,
            start + metadata_records_bytes(
                sorted_keys(m.dom()),
                m,
                sorted_keys(m.dom()).len(),
                metadata_version(block_version),
            ).len() as int,
        ) == metadata_records_bytes(
            sorted_keys(m.dom()),
            m,
            sorted_keys(m.dom()).len(),
            metadata_version(block_version),
        ),
    ensures
        parse_fold(
            s,
            start,
            i,
            Map::<u16, NodeMetadataView>::empty(),
            metadata_step(metadata_version(block_version)),
        ) == Ok::<(Map<u16, NodeMetadataView>, int), MapBlockError>(
            (
                metadata_upto(m, sorted_keys(m.dom()), i as int),
                start + metadata_records_bytes(
                    sorted_keys(m.dom()),
                    m,
                    i,
                    metadata_version(block_version),
                ).len() as int,
            ),
        ),
    decreases i,
{
    let keys = sorted_keys(m.dom());
    let version = metadata_version(block_version);
    lemma_sorted_keys(m.dom());
    if i == 0 {
        assert(metadata_upto(m, keys, 0) =~= Map::<u16, NodeMetadataView>::empty());
    } else {
        let k = (i - 1) as nat;
        lemma_metadata_fold(s, start, m, k, block_version);
        lemma_metadata_records_prefix(keys, m, i, keys.len(), version);
        let all = metadata_records_bytes(keys, m, keys.len(), version);
        let upto = metadata_records_bytes(keys, m, i, version);
        let before = metadata_records_bytes(keys, m, k, version);
        let key = keys[k as int];
        let v = m[key];
        assert(m.contains_key(key));
        assert(!metadata_is_empty(v));
        let one = u16_bytes(key) + metadata_bytes(v, version);
        let p: int = start + before.len() as int;
        assert(upto =~= before + one);
        assert(s.subrange(p, p + one.len() as int) =~= all.subrange(
            before.len() as int,
            upto.len() as int,
        ));
        assert(all.subrange(before.len() as int, upto.len() as int) =~= all.subrange(
            0,
            upto.len() as int,
        ).subrange(before.len() as int, upto.len() as int));
        assert(upto.subrange(before.len() as int, upto.len() as int) =~= one);
        lemma_metadata_step(s, p, key, v, metadata_upto(m, keys, k as int), version);
        let want = metadata_upto(m, keys, i as int);
        let got = metadata_upto(m, keys, k as int).insert(key, v);
        assert forall|j: u16| want.contains_key(j) <==> got.contains_key(j) by {
            if want.contains_key(j) {
                let c = choose|c: int| 0 <= c < i && keys[c] == j;
                if c < k {
                    assert(metadata_upto(m, keys, k as int).contains_key(j));
                }
            }
            if metadata_upto(m, keys, k as int).contains_key(j) {
                let c = choose|c: int| 0 <= c < k && keys[c] == j;
                assert(0 <= c < i && keys[c] == j);
            }
            if j == key {
                assert(0 <= k < i && keys[k as int] == j);
            }
        }
        assert(want =~= got);
    }
}

/// A list of metadata that was written without being compressed is read
/// back as it was, wherever it stands, if it is plain.
pub proof fn lemma_metadata_list_written_is_read(
    s: Seq<u8>,
    p: int,
    m: Map<u16, NodeMetadataView>,
    block_version: u8,
)
    requires
        0 <= p,
        metadata_list_plain(m, block_version),
        p + metadata_list_bytes(m, block_version).len() <= s.len(),
        s.subrange(p, p + metadata_list_bytes(m, block_version).len() as int)
            == metadata_list_bytes(m, block_version),
    ensures
        parse_metadata_list(s, p) == Ok::<(Map<u16, NodeMetadataView>, int), MapBlockError>(
            (m, p + metadata_list_bytes(m, block_version).len() as int),
        ),
{
    let keys = sorted_keys(m.dom());
    let version = metadata_version(block_version);
    let all = metadata_list_bytes(m, block_version);
    lemma_sorted_keys(m.dom());
    assert forall|c: int| 0 <= c < keys.len() implies !metadata_is_empty(m[#[trigger] keys[c]]) by {
        assert(m.contains_key(keys[c]));
    }
    lemma_all_filled(keys, m, keys.len());
    assert(s[p] == all[0]);
    if keys.len() == 0 {
        assert(m =~= Map::<u16, NodeMetadataView>::empty()) by {
            assert forall|j: u16| !m.contains_key(j) by {
                if m.contains_key(j) {
                    assert(keys.contains(j));
                }
            }
        }
    } else {
        let records = metadata_records_bytes(keys, m, keys.len(), version);
        assert(s.subrange(p + 1, p + 3) =~= all.subrange(1, 3));
        assert(all.subrange(1, 3) =~= u16_bytes(keys.len() as u16));
        lemma_u16_written_is_read(s, p + 1, keys.len() as u16);
        assert(s.subrange(p + 3, p + 3 + records.len() as int) =~= all.subrange(
            3,
            3 + records.len() as int,
        ));
        assert(all.subrange(3, 3 + records.len() as int) =~= records);
        lemma_metadata_fold(s, p + 3, m, keys.len(), block_version);
        let got = metadata_upto(m, keys, keys.len() as int);
        assert forall|j: u16| got.contains_key(j) <==> m.contains_key(j) by {
            if got.contains_key(j) {
                let c = choose|c: int| 0 <= c < keys.len() && keys[c] == j;
                assert(m.dom().contains(keys[c]));
            }
            if m.contains_key(j) {
                assert(keys.contains(j));
                let c = choose|c: int| 0 <= c < keys.len() && keys[c] == j;
                assert(0 <= c < keys.len() && keys[c] == j);
            }
        }
        assert(got =~= m);
    }
}

} // verus!
