use vstd::prelude::*;
use crate::types::Address;

verus! {

/// A direct message. The sender stays hidden until `revealed` is set.
#[derive(Debug)]
pub struct Message {
    pub id: u64,
    pub from: Address,
    pub to: Address,
    pub content: String,
    pub timestamp: u64,
    pub revealed: bool,
}

pub ghost struct MessageView {
    pub id: u64,
    pub from: Address,
    pub to: Address,
    pub content: Seq<char>,
    pub timestamp: u64,
    pub revealed: bool,
}

impl View for Message {
    type V = MessageView;

    open spec fn view(&self) -> MessageView {
        MessageView {
            id: self.id,
            from: self.from,
            to: self.to,
            content: self.content@,
            timestamp: self.timestamp,
            revealed: self.revealed,
        }
    }
}

impl Message {
    pub fn duplicate(&self) -> (r: Message)
        ensures
            r@ == self@,
    {
        Message {
            id: self.id,
            from: self.from,
            to: self.to,
            content: self.content.clone(),
            timestamp: self.timestamp,
            revealed: self.revealed,
        }
    }
}

/// Whether a message went from one of the two users to the other.
pub open spec fn exchanged(m: MessageView, a: Address, b: Address) -> bool {
    (m.from == a && m.to == b) || (m.from == b && m.to == a)
}

/// The messages exchanged between `a` and `b`, oldest first.
pub open spec fn conversation(ms: Seq<MessageView>, a: Address, b: Address) -> Seq<MessageView>
    decreases ms.len(),
{
    if ms.len() == 0 {
        Seq::empty()
    } else {
        let before = conversation(ms.drop_last(), a, b);
        if exchanged(ms.last(), a, b) {
            before.push(ms.last())
        } else {
            before
        }
    }
}

/// The messaging log: messages in sending order, the one with id `n` at
/// position `n - 1`.
pub struct MessagingContract {
    messages: Vec<Message>,
}

impl MessagingContract {
    pub closed spec fn messages(&self) -> Seq<MessageView> {
        self.messages@.map_values(|m: Message| m@)
    }

    pub closed spec fn wf(&self) -> bool {
        forall|i: int| 0 <= i < self.messages@.len() ==> #[trigger] self.messages@[i].id == i + 1
    }

    /// The message at position `i` has id `i + 1`, so ids grow with every
    /// message sent and `reveal_identity(id)` acts on the message with that id.
    pub proof fn ids_are_positions(&self)
        requires
            self.wf(),
        ensures
            forall|i: int| 0 <= i < self.messages().len() ==> #[trigger] self.messages()[i].id == i + 1,
    {
    }

    /// An empty log.
    pub fn new() -> (r: MessagingContract)
        ensures
            r.wf(),
            r.messages() == Seq::<MessageView>::empty(),
    {
        let r = MessagingContract { messages: Vec::new() };
        assert(r.messages() =~= Seq::<MessageView>::empty());
        r
    }

    /// Appends a message with the next id, its sender not yet revealed.
    pub fn send_message(
        &mut self,
        from: Address,
        to: Address,
        content: String,
        timestamp: u64,
    ) -> (r: Message)
        requires
            old(self).wf(),
            old(self).messages().len() < u64::MAX,
        ensures
            final(self).wf(),
            r@ == (MessageView {
                id: (old(self).messages().len() + 1) as u64,
                from,
                to,
                content: content@,
                timestamp,
                revealed: false,
            }),
            final(self).messages() == old(self).messages().push(r@),
            forall|i: int|
                0 <= i < old(self).messages().len() ==> #[trigger] old(self).messages()[i].id < r.id,
    {
        let id = self.messages.len() as u64 + 1;
        let m = Message { id, from, to, content, timestamp, revealed: false };
        self.messages.push(m.duplicate());
        assert(self.messages() =~= old(self).messages().push(m@));
        m
    }

    /// Reveals the sender of message `id`; an unknown id changes nothing.
    pub fn reveal_identity(&mut self, id: u64)
        requires
            old(self).wf(),
        ensures
            final(self).wf(),
            final(self).messages() == if 1 <= id <= old(self).messages().len() {
                old(self).messages().update(
                    id - 1,
                    MessageView { revealed: true, ..old(self).messages()[id - 1] },
                )
            } else {
                old(self).messages()
            },
    {
        if id >= 1 && id <= self.messages.len() as u64 {
            let i = (id - 1) as usize;
            let mut m = self.messages[i].duplicate();
            m.revealed = true;
            let ghost v = m@;
            self.messages.set(i, m);
            assert(self.messages() =~= old(self).messages().update(i as int, v));
        }
    }

    /// The messages exchanged between the two users in either direction,
    /// oldest first.
    pub fn get_messages(&self, user1: Address, user2: Address) -> (r: Vec<Message>)
        ensures
            r@.map_values(|m: Message| m@) == conversation(self.messages(), user1, user2),
    {
        let mut r: Vec<Message> = Vec::new();
        let mut i: usize = 0;
        while i < self.messages.len()
            invariant
                i <= self.messages@.len(),
                r@.map_values(|m: Message| m@) == conversation(
                    self.messages().take(i as int),
                    user1,
                    user2,
                ),
            decreases self.messages@.len() - i,
        {
            let ghost before = r@.map_values(|m: Message| m@);
            assert(self.messages().take(i as int + 1).drop_last() == self.messages().take(i as int));
            let m = &self.messages[i];
            if (m.from == user1 && m.to == user2) || (m.from == user2 && m.to == user1) {
                r.push(m.duplicate());
                assert(r@.map_values(|m: Message| m@) =~= before.push(self.messages@[i as int]@));
            }
            i += 1;
        }
        assert(self.messages().take(self.messages@.len() as int) == self.messages());
        r
    }
}

} // verus!
