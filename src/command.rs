use vstd::prelude::*;

use crate::error::Entity;

verus! {

/// A deferred structural change of the store, carrying component bundles of
/// type `B`.
pub enum Command<B> {
    /// Spawns a new entity with the components.
    Spawn(B),
    /// Adds the components to the entity.
    Insert(Entity, B),
    /// Removes the component with this key from the entity.
    Remove(Entity, u64),
}

/// A queue of deferred structural changes, replayed in enqueue order.
pub struct CommandBuffer<B> {
    commands: Vec<Command<B>>,
}

impl<B> View for CommandBuffer<B> {
    type V = Seq<Command<B>>;

    /// The queued commands, oldest first.
    closed spec fn view(&self) -> Seq<Command<B>> {
        self.commands@
    }
}

/// The commands of several buffers, taken buffer after buffer, each in its
/// own order.
pub open spec fn in_order<B>(buffers: Seq<CommandBuffer<B>>) -> Seq<Command<B>>
    decreases buffers.len(),
{
    if buffers.len() == 0 {
        Seq::empty()
    } else {
        buffers[0]@ + in_order(buffers.drop_first())
    }
}

impl<B> CommandBuffer<B> {
    /// An empty buffer.
    pub fn new() -> (r: Self)
        ensures
            r@ == Seq::<Command<B>>::empty(),
    {
        CommandBuffer { commands: Vec::new() }
    }

    /// Queues the spawning of an entity with `components`.
    pub fn spawn(&mut self, components: B)
        ensures
            final(self)@ == old(self)@.push(Command::Spawn(components)),
    {
        self.commands.push(Command::Spawn(components));
    }

    /// Queues adding `components` to `entity`.
    pub fn insert(&mut self, entity: Entity, components: B)
        ensures
            final(self)@ == old(self)@.push(Command::Insert(entity, components)),
    {
        self.commands.push(Command::Insert(entity, components));
    }

    /// Queues removing the component with key `key` from `entity`.
    pub fn remove_one(&mut self, key: u64, entity: Entity)
        ensures
            final(self)@ == old(self)@.push(Command::Remove(entity, key)),
    {
        self.commands.push(Command::Remove(entity, key));
    }

    /// Moves every command of `other` to the end of this buffer.
    pub fn append(&mut self, other: &mut CommandBuffer<B>)
        ensures
            final(self)@ == old(self)@ + old(other)@,
            final(other)@ == Seq::<Command<B>>::empty(),
    {
        self.commands.append(&mut other.commands);
    }

    /// The number of queued commands.
    pub fn len(&self) -> (r: usize)
        ensures
            r == self@.len(),
    {
        self.commands.len()
    }

    /// Whether no command is queued.
    pub fn is_empty(&self) -> (r: bool)
        ensures
            r == (self@.len() == 0),
    {
        self.commands.len() == 0
    }

    /// Takes every queued command out, oldest first, for replay against the
    /// store; the buffer is left empty.
    pub fn drain(&mut self) -> (r: Vec<Command<B>>)
        ensures
            r@ == old(self)@,
            final(self)@ == Seq::<Command<B>>::empty(),
    {
        let mut taken: Vec<Command<B>> = Vec::new();
        std::mem::swap(&mut taken, &mut self.commands);
        taken
    }

    /// Joins the buffers of several systems, given in execution order (batch
    /// by batch, and by system within a batch), into one buffer that keeps
    /// that order and the enqueue order within each.
    pub fn merge(buffers: Vec<CommandBuffer<B>>) -> (r: CommandBuffer<B>)
        ensures
            r@ == in_order(buffers@),
    {
        let ghost all = buffers@;
        let mut rest = buffers;
        let mut out: CommandBuffer<B> = CommandBuffer::new();
        while rest.len() > 0
            invariant
                out@ + in_order(rest@) == in_order(all),
            decreases rest@.len(),
        {
            let ghost before = rest@;
            let mut first = rest.remove(0);
            assert(rest@ =~= before.drop_first());
            out.append(&mut first);
            assert(out@ + in_order(rest@) =~= in_order(all));
        }
        assert(out@ + in_order(rest@) =~= out@);
        out
    }
}

/// Where command `p` of buffer `i` stands once the buffers are joined.
pub open spec fn position<B>(buffers: Seq<CommandBuffer<B>>, i: int, p: int) -> int {
    in_order(buffers.take(i)).len() + p
}

proof fn lemma_in_order_concat<B>(a: Seq<CommandBuffer<B>>, b: Seq<CommandBuffer<B>>)
    ensures
        in_order(a + b) == in_order(a) + in_order(b),
    decreases a.len(),
{
    if a.len() == 0 {
        assert(a + b =~= b);
        assert(in_order(a) + in_order(b) =~= in_order(b));
    } else {
        assert((a + b).drop_first() =~= a.drop_first() + b);
        lemma_in_order_concat(a.drop_first(), b);
        assert((a + b)[0] == a[0]);
        assert(in_order(a + b) =~= in_order(a) + in_order(b));
    }
}

proof fn lemma_in_order_at<B>(buffers: Seq<CommandBuffer<B>>, i: int)
    requires
        0 <= i < buffers.len(),
    ensures
        in_order(buffers) == in_order(buffers.take(i)) + buffers[i]@ + in_order(
            buffers.skip(i + 1),
        ),
{
    assert(buffers =~= buffers.take(i) + buffers.skip(i));
    lemma_in_order_concat(buffers.take(i), buffers.skip(i));
    assert(buffers.skip(i).drop_first() =~= buffers.skip(i + 1));
    assert(buffers.skip(i)[0] == buffers[i]);
}

/// Joined buffers replay in execution order: command `p` of buffer `i` is
/// found at its position, and it comes before command `q` of buffer `j`
/// whenever buffer `i` comes before buffer `j`, or they are one buffer and
/// `p` was queued before `q`. So a spawn, an insert and a removal queued in
/// that order come out in that order, whichever systems queued them.
pub proof fn lemma_replay_order<B>(buffers: Seq<CommandBuffer<B>>, i: int, p: int, j: int, q: int)
    requires
        0 <= i < buffers.len(),
        0 <= j < buffers.len(),
        0 <= p < buffers[i]@.len(),
        0 <= q < buffers[j]@.len(),
        i < j || (i == j && p < q),
    ensures
        0 <= position(buffers, i, p) < position(buffers, j, q) < in_order(buffers).len(),
        in_order(buffers)[position(buffers, i, p)] == buffers[i]@[p],
        in_order(buffers)[position(buffers, j, q)] == buffers[j]@[q],
{
    lemma_in_order_at(buffers, i);
    lemma_in_order_at(buffers, j);
    if i < j {
        let mid = buffers.subrange(i, j);
        assert(buffers.take(j) =~= buffers.take(i) + mid);
        lemma_in_order_concat(buffers.take(i), mid);
        assert(mid =~= buffers.subrange(i, i + 1) + buffers.subrange(i + 1, j));
        lemma_in_order_concat(buffers.subrange(i, i + 1), buffers.subrange(i + 1, j));
        let one = buffers.subrange(i, i + 1);
        assert(one[0] == buffers[i]);
        assert(one.drop_first().len() == 0);
        assert(in_order(one) =~= buffers[i]@ + in_order(one.drop_first()));
    }
}

} // verus!
