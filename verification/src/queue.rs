//! The receive mailbox between the proxy and the simulation: connect events,
//! disconnect events, and per-connection byte deliveries, each sub-stream in
//! producer order, drained once per tick.

use vstd::prelude::*;

verus! {

/// One byte delivery from the proxy for one connection.
pub struct Mail {
    pub conn: u64,
    pub bytes: Vec<u8>,
}

/// The three sub-streams the proxy fills and the tick boundary drains. Each
/// preserves the order in which the proxy appended; delivering the byte
/// mails in order preserves every connection's own byte order.
pub struct ReceiveQueue {
    connects: Vec<u64>,
    disconnects: Vec<u64>,
    mails: Vec<Mail>,
}

impl ReceiveQueue {
    /// Pending connect events, oldest first.
    pub closed spec fn connects(&self) -> Seq<u64> {
        self.connects@
    }

    /// Pending disconnect events, oldest first.
    pub closed spec fn disconnects(&self) -> Seq<u64> {
        self.disconnects@
    }

    /// Pending byte deliveries, oldest first.
    pub closed spec fn mails(&self) -> Seq<Mail> {
        self.mails@
    }

    /// An empty mailbox.
    pub fn new() -> (r: ReceiveQueue)
        ensures
            r.connects() == Seq::<u64>::empty(),
            r.disconnects() == Seq::<u64>::empty(),
            r.mails() == Seq::<Mail>::empty(),
    {
        ReceiveQueue { connects: Vec::new(), disconnects: Vec::new(), mails: Vec::new() }
    }

    /// The proxy announces a new connection.
    pub fn push_connect(&mut self, conn: u64)
        ensures
            final(self).connects() == old(self).connects().push(conn),
            final(self).disconnects() == old(self).disconnects(),
            final(self).mails() == old(self).mails(),
    {
        self.connects.push(conn);
    }

    /// The proxy announces a closed transport.
    pub fn push_disconnect(&mut self, conn: u64)
        ensures
            final(self).connects() == old(self).connects(),
            final(self).disconnects() == old(self).disconnects().push(conn),
            final(self).mails() == old(self).mails(),
    {
        self.disconnects.push(conn);
    }

    /// The proxy delivers bytes for a connection.
    pub fn push_bytes(&mut self, conn: u64, bytes: Vec<u8>)
        ensures
            final(self).connects() == old(self).connects(),
            final(self).disconnects() == old(self).disconnects(),
            final(self).mails().len() == old(self).mails().len() + 1,
            final(self).mails() == old(self).mails().push(final(self).mails().last()),
            final(self).mails().last().conn == conn,
            final(self).mails().last().bytes@ == bytes@,
    {
        self.mails.push(Mail { conn, bytes });
    }

    /// Takes every pending connect event, in order.
    pub fn drain_connects(&mut self) -> (r: Vec<u64>)
        ensures
            r@ == old(self).connects(),
            final(self).connects() == Seq::<u64>::empty(),
            final(self).disconnects() == old(self).disconnects(),
            final(self).mails() == old(self).mails(),
    {
        let mut out: Vec<u64> = Vec::new();
        core::mem::swap(&mut self.connects, &mut out);
        out
    }

    /// Takes every pending disconnect event, in order.
    pub fn drain_disconnects(&mut self) -> (r: Vec<u64>)
        ensures
            r@ == old(self).disconnects(),
            final(self).disconnects() == Seq::<u64>::empty(),
            final(self).connects() == old(self).connects(),
            final(self).mails() == old(self).mails(),
    {
        let mut out: Vec<u64> = Vec::new();
        core::mem::swap(&mut self.disconnects, &mut out);
        out
    }

    /// Takes every pending byte delivery, in order.
    pub fn drain_mails(&mut self) -> (r: Vec<Mail>)
        ensures
            r@ == old(self).mails(),
            final(self).mails() == Seq::<Mail>::empty(),
            final(self).connects() == old(self).connects(),
            final(self).disconnects() == old(self).disconnects(),
    {
        let mut out: Vec<Mail> = Vec::new();
        core::mem::swap(&mut self.mails, &mut out);
        out
    }
}

} // verus!
