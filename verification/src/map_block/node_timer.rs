use super::wire::ByteReader;
use super::wire::MapBlockError;
use super::wire::lemma_parse_fold_err;
use super::wire::lemma_u16_written_is_read;
use super::wire::lemma_u32_written_is_read;
use super::wire::parse_fold;
use super::wire::parse_u16;
use super::wire::parse_u32;
use super::wire::parse_u8;
use super::wire::u16_bytes;
use super::wire::u32_bytes;
use super::wire::write_u16;
use super::wire::write_u32;
use super::wire::write_u8;
use vstd::prelude::*;

verus! {

/// The length of one timer on the wire, the only one that is supported.
pub const TIMER_LENGTH: u8 = 10;

/// A timer that runs on one node of a block.
#[derive(Clone, Copy, Debug, PartialEq, Eq, Structural)]
pub struct NodeTimer {
    pub pos: u16,
    pub timeout: u32,
    pub elapsed: u32,
}

pub type NodeTimerList = Vec<NodeTimer>;

/// Reads one timer at `p` and adds it behind `timers`.
pub open spec fn timer_step() -> spec_fn(Seq<NodeTimer>, Seq<u8>, int) -> Result<
    (Seq<NodeTimer>, int),
    MapBlockError,
> {
    |timers: Seq<NodeTimer>, s: Seq<u8>, p: int|
        match parse_u16(s, p) {
            Ok((pos, p1)) => match parse_u32(s, p1) {
                Ok((timeout, p2)) => match parse_u32(s, p2) {
                    Ok((elapsed, p3)) => Ok((timers.push(NodeTimer { pos, timeout, elapsed }), p3)),
                    Err(e) => Err(e),
                },
                Err(e) => Err(e),
            },
            Err(e) => Err(e),
        }
}

/// What reading a list of timers at `pos` gives: the length of one timer,
/// which must be 10, the number of timers, and the timers.
pub open spec fn parse_timers(s: Seq<u8>, pos: int) -> Result<(Seq<NodeTimer>, int), MapBlockError> {
    match parse_u8(s, pos) {
        Ok((length, p)) => if length != TIMER_LENGTH {
            Err(MapBlockError::InvalidFeature)
        } else {
            match parse_u16(s, p) {
                Ok((count, p1)) => parse_fold(s, p1, count as nat, Seq::<NodeTimer>::empty(), timer_step()),
                Err(e) => Err(e),
            }
        },
        Err(e) => Err(e),
    }
}

/// The bytes of one timer.
pub open spec fn timer_bytes(t: NodeTimer) -> Seq<u8> {
    u16_bytes(t.pos) + u32_bytes(t.timeout) + u32_bytes(t.elapsed)
}

/// The bytes of the first `n` of `timers`.
pub open spec fn timer_records_bytes(timers: Seq<NodeTimer>, n: nat) -> Seq<u8>
    decreases n,
{
    if n == 0 {
        Seq::empty()
    } else {
        timer_records_bytes(timers, (n - 1) as nat) + timer_bytes(timers[n - 1])
    }
}

/// The bytes of a list of timers. The number of timers is written in 16
/// bits, cut to them if it is greater.
pub open spec fn timers_bytes(timers: Seq<NodeTimer>) -> Seq<u8> {
    seq![TIMER_LENGTH] + u16_bytes(timers.len() as u16) + timer_records_bytes(
        timers,
        timers.len(),
    )
}

pub fn deserialize_timers(src: &mut ByteReader) -> (r: Result<NodeTimerList, MapBlockError>)
    ensures
        final(src).bytes() == old(src).bytes(),
        match parse_timers(old(src).bytes(), old(src).position()) {
            Ok((m, p)) => r matches Ok(got) && got@ == m && final(src).position() == p,
            Err(e) => r matches Err(got) && got == e,
        },
{
    let data_len = src.read_u8()?;
    if data_len != TIMER_LENGTH {
        return Err(MapBlockError::InvalidFeature);
    }
    let count = src.read_u16()?;
    let ghost s = src.bytes();
    let ghost start = src.position();
    // The capacity asked for is bounded whatever the count says.
    let mut timers: Vec<NodeTimer> = Vec::with_capacity(if count < 4096 { count as usize } else { 4096 });
    let mut i: u16 = 0;
    while i < count
        invariant
            i <= count,
            src.bytes() == s,
            old(src).bytes() == s,
            parse_timers(s, old(src).position()) == parse_fold(
                s,
                start,
                count as nat,
                Seq::<NodeTimer>::empty(),
                timer_step(),
            ),
            parse_fold(s, start, i as nat, Seq::<NodeTimer>::empty(), timer_step()) == Ok::<
                (Seq<NodeTimer>, int),
                MapBlockError,
            >((timers@, src.position())),
        decreases count - i,
    {
        proof {
            if parse_fold(s, start, (i + 1) as nat, Seq::<NodeTimer>::empty(), timer_step()) is Err {
                lemma_parse_fold_err(
                    s,
                    start,
                    (i + 1) as nat,
                    count as nat,
                    Seq::<NodeTimer>::empty(),
                    timer_step(),
                );
            }
        }
        let pos = src.read_u16()?;
        let timeout = src.read_u32()?;
        let elapsed = src.read_u32()?;
        timers.push(NodeTimer { pos, timeout, elapsed });
        i = i + 1;
    }
    Ok(timers)
}

pub fn serialize_timers(timers: &NodeTimerList, dst: &mut Vec<u8>)
    ensures
        final(dst)@ == old(dst)@ + timers_bytes(timers@),
{
    let ghost before = dst@;
    write_u8(dst, TIMER_LENGTH);
    write_u16(dst, timers.len() as u16);
    let ghost head = dst@;
    let mut i: usize = 0;
    while i < timers.len()
        invariant
            i <= timers@.len(),
            dst@ == head + timer_records_bytes(timers@, i as nat),
        decreases timers@.len() - i,
    {
        let t = timers[i];
        write_u16(dst, t.pos);
        write_u32(dst, t.timeout);
        write_u32(dst, t.elapsed);
        proof {
            assert(dst@ =~= head + timer_records_bytes(timers@, (i + 1) as nat));
        }
        i = i + 1;
    }
    proof {
        assert(head =~= before + (seq![TIMER_LENGTH] + u16_bytes(timers@.len() as u16)));
        assert(dst@ =~= before + timers_bytes(timers@));
    }
}

/// The first `n` timers take ten bytes each, and the bytes of the
/// `k`-th of them stand at `10 k`.
proof fn lemma_timer_records(timers: Seq<NodeTimer>, n: nat, k: int)
    requires
        n <= timers.len(),
        0 <= k < n,
    ensures
        timer_records_bytes(timers, n).len() == 10 * n,
        timer_records_bytes(timers, n).subrange(10 * k, 10 * k + 10) == timer_bytes(timers[k]),
    decreases n,
{
    lemma_timer_records_len(timers, n);
    lemma_timer_records_len(timers, (n - 1) as nat);
    let all = timer_records_bytes(timers, n);
    let before = timer_records_bytes(timers, (n - 1) as nat);
    if k == n - 1 {
        assert(all.subrange(10 * k, 10 * k + 10) =~= timer_bytes(timers[k]));
    } else {
        lemma_timer_records(timers, (n - 1) as nat, k);
        assert(all.subrange(10 * k, 10 * k + 10) =~= before.subrange(10 * k, 10 * k + 10));
    }
}

proof fn lemma_timer_records_len(timers: Seq<NodeTimer>, n: nat)
    requires
        n <= timers.len(),
    ensures
        timer_records_bytes(timers, n).len() == 10 * n,
    decreases n,
{
    if n > 0 {
        lemma_timer_records_len(timers, (n - 1) as nat);
    }
}

/// A timer that was written is read back.
proof fn lemma_timer_step(s: Seq<u8>, p: int, t: NodeTimer, acc: Seq<NodeTimer>)
    requires
        0 <= p,
        p + 10 <= s.len(),
        s.subrange(p, p + 10) == timer_bytes(t),
    ensures
        timer_step()(acc, s, p) == Ok::<(Seq<NodeTimer>, int), MapBlockError>(
            (acc.push(t), p + 10),
        ),
{
    let one = timer_bytes(t);
    assert(s.subrange(p, p + 2) =~= one.subrange(0, 2));
    assert(one.subrange(0, 2) =~= u16_bytes(t.pos));
    assert(s.subrange(p + 2, p + 6) =~= one.subrange(2, 6));
    assert(one.subrange(2, 6) =~= u32_bytes(t.timeout));
    assert(s.subrange(p + 6, p + 10) =~= one.subrange(6, 10));
    assert(one.subrange(6, 10) =~= u32_bytes(t.elapsed));
    lemma_u16_written_is_read(s, p, t.pos);
    lemma_u32_written_is_read(s, p + 2, t.timeout);
    lemma_u32_written_is_read(s, p + 6, t.elapsed);
}

/// The first `i` of the timers whose records stand in `s` from `start`
/// on are read back.
proof fn lemma_timers_fold(s: Seq<u8>, start: int, timers: Seq<NodeTimer>, i: nat)
    requires
        0 <= start,
        i <= timers.len(),
        start + 10 * timers.len() <= s.len(),
        forall|k: int|
            0 <= k < timers.len() ==> #[trigger] s.subrange(start + 10 * k, start + 10 * k + 10)
                == timer_bytes(timers[k]),
    ensures
        parse_fold(s, start, i, Seq::<NodeTimer>::empty(), timer_step()) == Ok::<
            (Seq<NodeTimer>, int),
            MapBlockError,
        >((timers.subrange(0, i as int), start + 10 * i as int)),
    decreases i,
{
    if i == 0 {
        assert(timers.subrange(0, 0) =~= Seq::<NodeTimer>::empty());
    } else {
        let k = (i - 1) as int;
        lemma_timers_fold(s, start, timers, (i - 1) as nat);
        assert(s.subrange(start + 10 * k, start + 10 * k + 10) == timer_bytes(timers[k]));
        lemma_timer_step(s, start + 10 * k, timers[k], timers.subrange(0, k));
        assert(timers.subrange(0, k).push(timers[k]) =~= timers.subrange(0, i as int));
    }
}

/// Timers that were written are read back as they were, wherever they
/// stand, if there are few enough for their number to be written.
pub proof fn lemma_timers_written_are_read(s: Seq<u8>, p: int, timers: Seq<NodeTimer>)
    requires
        0 <= p,
        timers.len() <= u16::MAX,
        p + timers_bytes(timers).len() <= s.len(),
        s.subrange(p, p + timers_bytes(timers).len() as int) == timers_bytes(timers),
    ensures
        parse_timers(s, p) == Ok::<(Seq<NodeTimer>, int), MapBlockError>(
            (timers, p + timers_bytes(timers).len() as int),
        ),
{
    let all = timers_bytes(timers);
    let records = timer_records_bytes(timers, timers.len());
    lemma_timer_records_len(timers, timers.len());
    assert(s[p] == all[0]);
    assert(s.subrange(p + 1, p + 3) =~= all.subrange(1, 3));
    assert(all.subrange(1, 3) =~= u16_bytes(timers.len() as u16));
    lemma_u16_written_is_read(s, p + 1, timers.len() as u16);
    assert forall|k: int| 0 <= k < timers.len() implies #[trigger] s.subrange(
        p + 3 + 10 * k,
        p + 3 + 10 * k + 10,
    ) == timer_bytes(timers[k]) by {
        lemma_timer_records(timers, timers.len(), k);
        assert(s.subrange(p + 3 + 10 * k, p + 3 + 10 * k + 10) =~= all.subrange(
            3 + 10 * k,
            3 + 10 * k + 10,
        ));
        assert(all.subrange(3 + 10 * k, 3 + 10 * k + 10) =~= records.subrange(10 * k, 10 * k + 10));
    }
    lemma_timers_fold(s, p + 3, timers, timers.len());
    assert(timers.subrange(0, timers.len() as int) =~= timers);
}

} // verus!
