use crate::spatial::Vec3;
use super::wire::ByteReader;
use super::wire::MapBlockError;
use super::wire::i32_bytes;
use super::wire::lemma_i32_written_is_read;
use super::wire::lemma_parse_fold_err;
use super::wire::lemma_string16_written_is_read;
use super::wire::lemma_u16_written_is_read;
use super::wire::parse_fold;
use super::wire::parse_i32;
use super::wire::parse_string16;
use super::wire::parse_string32;
use super::wire::parse_u16;
use super::wire::parse_u8;
use super::wire::read_string16;
use super::wire::read_string32;
use super::wire::string16_bytes;
use super::wire::u16_bytes;
use super::wire::write_i32;
use super::wire::write_string16;
use super::wire::write_u16;
use super::wire::write_u8;
use vstd::prelude::*;

verus! {

/// The object type of a Lua entity.
pub const LUA_ENTITY_TYPE: u8 = 7;

/// The only version of a Lua entity's data that is supported.
pub const LUA_ENTITY_VERSION: u8 = 1;

/// An object that rests in a block while the block is not loaded.
#[derive(Clone, Debug)]
pub struct StaticObject {
    pub obj_type: u8,
    /// The position, in units of a ten-thousandth of a node.
    pub f_pos: Vec3,
    pub data: Vec<u8>,
}

/// What a static object holds.
pub struct StaticObjectView {
    pub obj_type: u8,
    pub f_pos: Vec3,
    pub data: Seq<u8>,
}

impl View for StaticObject {
    type V = StaticObjectView;

    open spec fn view(&self) -> StaticObjectView {
        StaticObjectView { obj_type: self.obj_type, f_pos: self.f_pos, data: self.data@ }
    }
}

impl DeepView for StaticObject {
    type V = StaticObjectView;

    open spec fn deep_view(&self) -> StaticObjectView {
        self@
    }
}

pub type StaticObjectList = Vec<StaticObject>;

/// What reading one static object at `pos` gives.
pub open spec fn parse_object(s: Seq<u8>, pos: int) -> Result<(StaticObjectView, int), MapBlockError> {
    match parse_u8(s, pos) {
        Ok((obj_type, p)) => match parse_i32(s, p) {
            Ok((x, p1)) => match parse_i32(s, p1) {
                Ok((y, p2)) => match parse_i32(s, p2) {
                    Ok((z, p3)) => match parse_string16(s, p3) {
                        Ok((data, p4)) => Ok(
                            (StaticObjectView { obj_type, f_pos: Vec3 { x, y, z }, data }, p4),
                        ),
                        Err(e) => Err(e),
                    },
                    Err(e) => Err(e),
                },
                Err(e) => Err(e),
            },
            Err(e) => Err(e),
        },
        Err(e) => Err(e),
    }
}

/// Reads one static object at `p` and adds it behind `objects`.
pub open spec fn object_step() -> spec_fn(Seq<StaticObjectView>, Seq<u8>, int) -> Result<
    (Seq<StaticObjectView>, int),
    MapBlockError,
> {
    |objects: Seq<StaticObjectView>, s: Seq<u8>, p: int|
        match parse_object(s, p) {
            Ok((obj, p1)) => Ok((objects.push(obj), p1)),
            Err(e) => Err(e),
        }
}

/// What reading a list of static objects at `pos` gives: a version byte
/// that must be 0, the number of objects, and the objects.
pub open spec fn parse_objects(s: Seq<u8>, pos: int) -> Result<
    (Seq<StaticObjectView>, int),
    MapBlockError,
> {
    match parse_u8(s, pos) {
        Ok((version, p)) => if version != 0 {
            Err(MapBlockError::InvalidSubVersion)
        } else {
            match parse_u16(s, p) {
                Ok((count, p1)) => parse_fold(
                    s,
                    p1,
                    count as nat,
                    Seq::<StaticObjectView>::empty(),
                    object_step(),
                ),
                Err(e) => Err(e),
            }
        },
        Err(e) => Err(e),
    }
}

/// The bytes of one static object.
pub open spec fn object_bytes(obj: StaticObjectView) -> Seq<u8> {
    seq![obj.obj_type] + i32_bytes(obj.f_pos.x) + i32_bytes(obj.f_pos.y) + i32_bytes(obj.f_pos.z)
        + string16_bytes(obj.data)
}

/// The bytes of the first `n` of `objects`.
pub open spec fn object_records_bytes(objects: Seq<StaticObjectView>, n: nat) -> Seq<u8>
    decreases n,
{
    if n == 0 {
        Seq::empty()
    } else {
        object_records_bytes(objects, (n - 1) as nat) + object_bytes(objects[n - 1])
    }
}

/// The bytes of a list of static objects. The number of objects is written
/// in 16 bits, cut to them if it is greater.
pub open spec fn objects_bytes(objects: Seq<StaticObjectView>) -> Seq<u8> {
    seq![0u8] + u16_bytes(objects.len() as u16) + object_records_bytes(objects, objects.len())
}

/// Whether the data of every object is short enough to be written behind a
/// two-byte length.
pub open spec fn objects_fit(objects: Seq<StaticObjectView>) -> bool {
    forall|i: int| 0 <= i < objects.len() ==> (#[trigger] objects[i]).data.len() <= u16::MAX
}

impl StaticObject {
    pub fn deserialize(src: &mut ByteReader) -> (r: Result<Self, MapBlockError>)
        ensures
            final(src).bytes() == old(src).bytes(),
            match parse_object(old(src).bytes(), old(src).position()) {
                Ok((m, p)) => r matches Ok(got) && got@ == m && final(src).position() == p,
                Err(e) => r matches Err(got) && got == e,
            },
    {
        let obj_type = src.read_u8()?;
        let x = src.read_i32()?;
        let y = src.read_i32()?;
        let z = src.read_i32()?;
        let data = read_string16(src)?;
        Ok(Self { obj_type, f_pos: Vec3 { x, y, z }, data })
    }

    pub fn serialize(&self, dst: &mut Vec<u8>)
        requires
            self.data@.len() <= u16::MAX,
        ensures
            final(dst)@ == old(dst)@ + object_bytes(self@),
    {
        let ghost before = dst@;
        write_u8(dst, self.obj_type);
        write_i32(dst, self.f_pos.x);
        write_i32(dst, self.f_pos.y);
        write_i32(dst, self.f_pos.z);
        write_string16(dst, self.data.as_slice());
        proof {
            assert(dst@ =~= before + object_bytes(self@));
        }
    }
}

pub fn deserialize_objects(src: &mut ByteReader) -> (r: Result<StaticObjectList, MapBlockError>)
    ensures
        final(src).bytes() == old(src).bytes(),
        match parse_objects(old(src).bytes(), old(src).position()) {
            Ok((m, p)) => r matches Ok(got) && got.deep_view() == m && final(src).position() == p,
            Err(e) => r matches Err(got) && got == e,
        },
{
    let version = src.read_u8()?;
    if version != 0 {
        return Err(MapBlockError::InvalidSubVersion);
    }
    let count = src.read_u16()?;
    let ghost s = src.bytes();
    let ghost start = src.position();
    // The capacity asked for is bounded whatever the count says.
    let mut list: Vec<StaticObject> = Vec::with_capacity(if count < 64 { count as usize } else { 64 });
    let mut i: u16 = 0;
    assert(list.deep_view() =~= Seq::<StaticObjectView>::empty());
    while i < count
        invariant
            i <= count,
            src.bytes() == s,
            old(src).bytes() == s,
            parse_objects(s, old(src).position()) == parse_fold(
                s,
                start,
                count as nat,
                Seq::<StaticObjectView>::empty(),
                object_step(),
            ),
            parse_fold(s, start, i as nat, Seq::<StaticObjectView>::empty(), object_step())
                == Ok::<(Seq<StaticObjectView>, int), MapBlockError>(
                (list.deep_view(), src.position()),
            ),
        decreases count - i,
    {
        proof {
            if parse_fold(s, start, (i + 1) as nat, Seq::<StaticObjectView>::empty(), object_step()) is Err {
                lemma_parse_fold_err(
                    s,
                    start,
                    (i + 1) as nat,
                    count as nat,
                    Seq::<StaticObjectView>::empty(),
                    object_step(),
                );
            }
        }
        let ghost sofar = list.deep_view();
        let obj = StaticObject::deserialize(src)?;
        list.push(obj);
        proof {
            assert(list.deep_view() =~= sofar.push(obj@));
        }
        i = i + 1;
    }
    Ok(list)
}

pub fn serialize_objects(objects: &StaticObjectList, dst: &mut Vec<u8>)
    requires
        objects_fit(objects.deep_view()),
    ensures
        final(dst)@ == old(dst)@ + objects_bytes(objects.deep_view()),
{
    let ghost before = dst@;
    let ghost views = objects.deep_view();
    write_u8(dst, 0);
    write_u16(dst, objects.len() as u16);
    let ghost head = dst@;
    let mut i: usize = 0;
    while i < objects.len()
        invariant
            i <= objects@.len(),
            views == objects.deep_view(),
            views.len() == objects@.len(),
            objects_fit(views),
            dst@ == head + object_records_bytes(views, i as nat),
        decreases objects@.len() - i,
    {
        proof {
            assert(views[i as int] == objects@[i as int]@);
            assert(views[i as int].data.len() <= u16::MAX);
        }
        objects[i].serialize(dst);
        proof {
            assert(dst@ =~= head + object_records_bytes(views, (i + 1) as nat));
        }
        i = i + 1;
    }
    proof {
        assert(head =~= before + (seq![0u8] + u16_bytes(objects@.len() as u16)));
        assert(dst@ =~= before + objects_bytes(views));
    }
}

/// The name and data of a Lua entity, the engine's standard kind of object.
#[derive(Clone, Debug)]
pub struct LuaEntityData {
    pub name: Vec<u8>,
    pub data: Vec<u8>,
}

/// What reading the data of a static object as a Lua entity gives: the
/// name and the data.
pub open spec fn parse_lua_entity(obj: StaticObjectView) -> Result<(Seq<u8>, Seq<u8>), MapBlockError> {
    if obj.obj_type != LUA_ENTITY_TYPE {
        Err(MapBlockError::InvalidFeature)
    } else {
        match parse_u8(obj.data, 0) {
            Ok((version, p)) => if version != LUA_ENTITY_VERSION {
                Err(MapBlockError::InvalidSubVersion)
            } else {
                match parse_string16(obj.data, p) {
                    Ok((name, p1)) => match parse_string32(obj.data, p1) {
                        Ok((data, p2)) => Ok((name, data)),
                        Err(e) => Err(e),
                    },
                    Err(e) => Err(e),
                }
            },
            Err(e) => Err(e),
        }
    }
}

impl LuaEntityData {
    pub fn deserialize(src: &StaticObject) -> (r: Result<Self, MapBlockError>)
        ensures
            match parse_lua_entity(src@) {
                Ok((name, data)) => r matches Ok(got) && got.name@ == name && got.data@ == data,
                Err(e) => r matches Err(got) && got == e,
            },
    {
        if src.obj_type != LUA_ENTITY_TYPE {
            return Err(MapBlockError::InvalidFeature);
        }
        let mut src_data = ByteReader::new(src.data.as_slice());
        let version = src_data.read_u8()?;
        if version != LUA_ENTITY_VERSION {
            return Err(MapBlockError::InvalidSubVersion);
        }
        let name = read_string16(&mut src_data)?;
        let data = read_string32(&mut src_data)?;
        Ok(Self { name, data })
    }
}

/// The records of the first `k` objects stand at the front of the records
/// of the first `n`.
proof fn lemma_object_records_prefix(objects: Seq<StaticObjectView>, k: nat, n: nat)
    requires
        k <= n <= objects.len(),
    ensures
        object_records_bytes(objects, k).len() <= object_records_bytes(objects, n).len(),
        object_records_bytes(objects, n).subrange(
            0,
            object_records_bytes(objects, k).len() as int,
        ) == object_records_bytes(objects, k),
    decreases n,
{
    if k < n {
        lemma_object_records_prefix(objects, k, (n - 1) as nat);
        let head = object_records_bytes(objects, k);
        let before = object_records_bytes(objects, (n - 1) as nat);
        let all = object_records_bytes(objects, n);
        assert(all.subrange(0, head.len() as int) =~= before.subrange(0, head.len() as int));
    } else {
        let all = object_records_bytes(objects, n);
        assert(all.subrange(0, all.len() as int) =~= all);
    }
}

/// An object that was written is read back, if its data is short enough
/// to be written.
pub proof fn lemma_object_written_is_read(s: Seq<u8>, p: int, obj: StaticObjectView)
    requires
        0 <= p,
        obj.data.len() <= u16::MAX,
        p + object_bytes(obj).len() <= s.len(),
        s.subrange(p, p + object_bytes(obj).len()) == object_bytes(obj),
    ensures
        parse_object(s, p) == Ok::<(StaticObjectView, int), MapBlockError>(
            (obj, p + object_bytes(obj).len()),
        ),
{
    let one = object_bytes(obj);
    let n = obj.data.len() as int;
    assert(one.len() == 15 + n);
    assert(s[p] == one[0]);
    assert(s.subrange(p + 1, p + 5) =~= one.subrange(1, 5));
    assert(one.subrange(1, 5) =~= i32_bytes(obj.f_pos.x));
    assert(s.subrange(p + 5, p + 9) =~= one.subrange(5, 9));
    assert(one.subrange(5, 9) =~= i32_bytes(obj.f_pos.y));
    assert(s.subrange(p + 9, p + 13) =~= one.subrange(9, 13));
    assert(one.subrange(9, 13) =~= i32_bytes(obj.f_pos.z));
    assert(s.subrange(p + 13, p + 15 + n) =~= one.subrange(13, 15 + n));
    assert(one.subrange(13, 15 + n) =~= string16_bytes(obj.data));
    lemma_i32_written_is_read(s, p + 1, obj.f_pos.x);
    lemma_i32_written_is_read(s, p + 5, obj.f_pos.y);
    lemma_i32_written_is_read(s, p + 9, obj.f_pos.z);
    lemma_string16_written_is_read(s, p + 13, obj.data);
}

/// The first `i` of the objects whose records stand in `s` from `start`
/// on are read back.
proof fn lemma_objects_fold(s: Seq<u8>, start: int, objects: Seq<StaticObjectView>, i: nat)
    requires
        0 <= start,
        i <= objects.len(),
        objects_fit(objects),
        start + object_records_bytes(objects, objects.len()).len() <= s.len(),
        s.subrange(start, start + object_records_bytes(objects, objects.len()).len() as int)
            == object_records_bytes(objects, objects.len()),
    ensures
        parse_fold(s, start, i, Seq::<StaticObjectView>::empty(), object_step()) == Ok::<
            (Seq<StaticObjectView>, int),
            MapBlockError,
        >((objects.subrange(0, i as int), start + object_records_bytes(objects, i).len() as int)),
    decreases i,
{
    if i == 0 {
        assert(objects.subrange(0, 0) =~= Seq::<StaticObjectView>::empty());
    } else {
        let k = (i - 1) as nat;
        lemma_objects_fold(s, start, objects, k);
        lemma_object_records_prefix(objects, i, objects.len());
        let all = object_records_bytes(objects, objects.len());
        let upto = object_records_bytes(objects, i);
        let before = object_records_bytes(objects, k);
        let obj = objects[k as int];
        let p: int = start + before.len() as int;
        assert(s.subrange(p, p + object_bytes(obj).len() as int) =~= all.subrange(
            before.len() as int,
            upto.len() as int,
        ));
        assert(all.subrange(before.len() as int, upto.len() as int) =~= all.subrange(
            0,
            upto.len() as int,
        ).subrange(before.len() as int, upto.len() as int));
        assert(upto.subrange(before.len() as int, upto.len() as int) =~= object_bytes(obj));
        lemma_object_written_is_read(s, p, obj);
        assert(objects.subrange(0, k as int).push(obj) =~= objects.subrange(0, i as int));
    }
}

/// Objects that were written are read back as they were, wherever they
/// stand, if there are few enough for their number to be written and the
/// data of each is short enough.
pub proof fn lemma_objects_written_are_read(s: Seq<u8>, p: int, objects: Seq<StaticObjectView>)
    requires
        0 <= p,
        objects.len() <= u16::MAX,
        objects_fit(objects),
        p + objects_bytes(objects).len() <= s.len(),
        s.subrange(p, p + objects_bytes(objects).len() as int) == objects_bytes(objects),
    ensures
        parse_objects(s, p) == Ok::<(Seq<StaticObjectView>, int), MapBlockError>(
            (objects, p + objects_bytes(objects).len() as int),
        ),
{
    let all = objects_bytes(objects);
    let records = object_records_bytes(objects, objects.len());
    assert(s[p] == all[0]);
    assert(s.subrange(p + 1, p + 3) =~= all.subrange(1, 3));
    assert(all.subrange(1, 3) =~= u16_bytes(objects.len() as u16));
    lemma_u16_written_is_read(s, p + 1, objects.len() as u16);
    assert(s.subrange(p + 3, p + 3 + records.len() as int) =~= all.subrange(
        3,
        3 + records.len() as int,
    ));
    assert(all.subrange(3, 3 + records.len() as int) =~= records);
    lemma_objects_fold(s, p + 3, objects, objects.len());
    assert(objects.subrange(0, objects.len() as int) =~= objects);
}

} // verus!
