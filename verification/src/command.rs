//! The chat-command directory: command names in registration order, each
//! referring to a handler that the embedding layer owns, filtered by
//! per-caller permission.

use crate::ign::bytes_eq;
use vstd::prelude::*;

verus! {

/// One registered command: its name and the embedding layer's handler id.
pub struct CommandEntry {
    pub name: Vec<u8>,
    pub handler: u64,
}

/// The command directory. Names are unique; a re-registration replaces the
/// handler and keeps the original position, so iteration order is the order
/// of first registration.
pub struct CommandRegistry {
    entries: Vec<CommandEntry>,
}

impl CommandRegistry {
    /// Command names are unique.
    pub closed spec fn wf(&self) -> bool {
        forall|i: int, j: int|
            0 <= i < j < self.entries@.len() ==> self.entries@[i].name@ != self.entries@[j].name@
    }

    /// The registered names, in first-registration order.
    pub closed spec fn names(&self) -> Seq<Seq<u8>> {
        self.entries@.map(|i: int, e: CommandEntry| e.name@)
    }

    /// Whether a command is registered under `name`.
    pub open spec fn has_command(&self, name: Seq<u8>) -> bool {
        self.names().contains(name)
    }

    /// An empty directory.
    pub fn new() -> (r: CommandRegistry)
        ensures
            r.wf(),
            r.names() == Seq::<Seq<u8>>::empty(),
    {
        let r = CommandRegistry { entries: Vec::new() };
        proof {
            assert(r.names() =~= Seq::<Seq<u8>>::empty());
        }
        r
    }

    /// Registers a handler under a name. A name registered before keeps its
    /// position and gets the new handler; a new name goes to the end.
    pub fn register(&mut self, name: Vec<u8>, handler: u64)
        requires
            old(self).wf(),
        ensures
            final(self).wf(),
            final(self).has_command(name@),
            old(self).has_command(name@) ==> final(self).names() == old(self).names(),
            !old(self).has_command(name@) ==> final(self).names() == old(self).names().push(name@),
    {
        let ghost s0 = self.entries@;
        let mut i: usize = 0;
        while i < self.entries.len()
            invariant
                self.entries@ == s0,
                s0 == old(self).entries@,
                old(self).wf(),
                i <= s0.len(),
                forall|j: int| 0 <= j < i ==> s0[j].name@ != name@,
            decreases s0.len() - i,
        {
            if bytes_eq(self.entries[i].name.as_slice(), name.as_slice()) {
                let mut e = self.entries.remove(i);
                e.handler = handler;
                self.entries.insert(i, e);
                proof {
                    assert(self.entries@ =~= s0.update(i as int, self.entries@[i as int]));
                    assert(self.entries@[i as int].name@ == s0[i as int].name@);
                    assert forall|j: int|
                        0 <= j < self.names().len() implies self.names()[j] == old(self).names()[j] by {
                        assert(self.entries@[j].name@ == s0[j].name@);
                    }
                    assert(self.names() =~= old(self).names());
                    assert(self.names()[i as int] == name@);
                }
                return ;
            }
            i = i + 1;
        }
        self.entries.push(CommandEntry { name, handler });
        proof {
            assert(self.entries@.drop_last() =~= s0);
            assert(self.names() =~= old(self).names().push(
                self.entries@.last().name@,
            ));
            assert(self.names().last() == self.names()[s0.len() as int]);
            if old(self).has_command(self.entries@.last().name@) {
                let j = choose|j: int|
                    0 <= j < s0.len() && old(self).names()[j] == self.entries@.last().name@;
                assert(s0[j].name@ == self.entries@.last().name@);
                assert(false);
            }
        }
    }

    /// Every registered name, in first-registration order.
    pub fn all(&self) -> (r: Vec<Vec<u8>>)
        requires
            self.wf(),
        ensures
            r@.map(|i: int, n: Vec<u8>| n@) =~= self.names(),
    {
        let mut out: Vec<Vec<u8>> = Vec::new();
        let mut i: usize = 0;
        while i < self.entries.len()
            invariant
                i <= self.entries@.len(),
                out@.len() == i,
                forall|j: int|
                    0 <= j < i ==> (#[trigger] out@[j])@ == self.entries@[j].name@,
            decreases self.entries@.len() - i,
        {
            out.push(vstd::slice::slice_to_vec(self.entries[i].name.as_slice()));
            i = i + 1;
        }
        proof {
            assert(out@.map(|i: int, n: Vec<u8>| n@) =~= self.names());
        }
        out
    }

    /// The names the caller may use, given one permission verdict per
    /// registered command, in directory order. The verdicts come from the
    /// embedding layer's permission handlers.
    pub fn get_permitted(&self, allowed: &[bool]) -> (r: Vec<Vec<u8>>)
        requires
            self.wf(),
            allowed@.len() == self.names().len(),
        ensures
            r@.map(|i: int, n: Vec<u8>| n@) =~= permitted_of(self.names(), allowed@),
    {
        let mut out: Vec<Vec<u8>> = Vec::new();
        let mut i: usize = 0;
        while i < self.entries.len()
            invariant
                self.wf(),
                allowed@.len() == self.entries@.len(),
                i <= self.entries@.len(),
                out@.map(|j: int, n: Vec<u8>| n@) =~= permitted_of(
                    self.names().take(i as int),
                    allowed@.take(i as int),
                ),
            decreases self.entries@.len() - i,
        {
            let ghost before = out@;
            if allowed[i] {
                out.push(vstd::slice::slice_to_vec(self.entries[i].name.as_slice()));
            }
            proof {
                assert(self.names().take(i + 1).drop_last() =~= self.names().take(i as int));
                assert(allowed@.take(i + 1).drop_last() =~= allowed@.take(i as int));
                assert(self.names().take(i + 1).last() == self.entries@[i as int].name@);
                assert(allowed@.take(i + 1).last() == allowed@[i as int]);
                if allowed@[i as int] {
                    assert(out@.drop_last() =~= before);
                    assert(out@.map(|j: int, n: Vec<u8>| n@) =~= before.map(
                        |j: int, n: Vec<u8>| n@,
                    ).push(self.entries@[i as int].name@));
                }
                assert(out@.map(|j: int, n: Vec<u8>| n@) =~= permitted_of(
                    self.names().take(i + 1),
                    allowed@.take(i + 1),
                ));
            }
            i = i + 1;
        }
        proof {
            assert(self.names().take(self.names().len() as int) =~= self.names());
            assert(allowed@.take(allowed@.len() as int) =~= allowed@);
        }
        out
    }
}

/// The names whose permission verdict is true, in order.
pub open spec fn permitted_of(names: Seq<Seq<u8>>, allowed: Seq<bool>) -> Seq<Seq<u8>>
    decreases names.len(),
{
    if names.len() == 0 || allowed.len() != names.len() {
        Seq::empty()
    } else if allowed.last() {
        permitted_of(names.drop_last(), allowed.drop_last()).push(names.last())
    } else {
        permitted_of(names.drop_last(), allowed.drop_last())
    }
}

/// Installs the command directory: an empty registry ready for
/// registrations.
pub struct CommandComponentModule {}

impl CommandComponentModule {
    /// Builds the empty directory the module installs.
    pub fn module() -> (r: CommandRegistry)
        ensures
            r.wf(),
            r.names() == Seq::<Seq<u8>>::empty(),
    {
        CommandRegistry::new()
    }
}

} // verus!
