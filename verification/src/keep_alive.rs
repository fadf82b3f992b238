//! The heartbeat: the connections that are to be kept alive.

use vstd::prelude::*;

verus! {

/// The time between two heartbeats, in seconds.
pub const KEEP_ALIVE_PERIOD: u64 = 15;

/// The operations of the heartbeat's mailbox.
#[derive(Debug, Clone, Copy, PartialEq, Eq)]
pub enum KeepAliveOperations {
    New(NewKeepAliveConnectionMessage),
}

/// Announces a connection that is to be kept alive.
#[derive(Debug, Clone, Copy, PartialEq, Eq)]
pub struct NewKeepAliveConnectionMessage {
    pub conn_id: u128,
}

/// Takes the operations that came in since the last heartbeat: each
/// connection that they announce is added to the list, in order.
pub fn start_keep_alive(conn_ids: &mut Vec<u128>, arrived: Vec<KeepAliveOperations>)
    ensures
        final(conn_ids)@ == old(conn_ids)@ + Seq::new(
            arrived@.len(),
            |i: int| arrived@[i]->New_0.conn_id,
        ),
{
    let mut i: usize = 0;
    let ghost announced = Seq::new(arrived@.len(), |i: int| arrived@[i]->New_0.conn_id);
    assert(announced.take(0) =~= Seq::<u128>::empty());
    assert(conn_ids@ =~= old(conn_ids)@ + announced.take(0));
    while i < arrived.len()
        invariant
            i <= arrived@.len(),
            announced == Seq::new(arrived@.len(), |i: int| arrived@[i]->New_0.conn_id),
            conn_ids@ == old(conn_ids)@ + announced.take(i as int),
        decreases arrived@.len() - i,
    {
        match arrived[i] {
            KeepAliveOperations::New(msg) => {
                conn_ids.push(msg.conn_id);
            },
        }
        assert(announced.take(i + 1) =~= announced.take(i as int).push(announced[i as int]));
        assert(conn_ids@ =~= old(conn_ids)@ + announced.take(i + 1));
        i = i + 1;
    }
    assert(announced.take(arrived@.len() as int) =~= announced);
}

} // verus!
