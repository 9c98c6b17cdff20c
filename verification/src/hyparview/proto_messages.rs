//! Protocol-buffer shaped messages: each field is either set or not, and an
//! unset field reads as its default.

use vstd::prelude::*;

verus! {

/// A string field of a message: its value, and whether it is set. An unset
/// field reads as the empty string.
#[derive(Clone, Debug)]
struct StringField {
    value: String,
    set: bool,
}

impl StringField {
    /// The field's value when it is set.
    closed spec fn contents(&self) -> Option<Seq<char>> {
        if self.set {
            Some(self.value@)
        } else {
            None
        }
    }

    fn none() -> (r: StringField)
        ensures
            r.contents() is None,
    {
        StringField { value: String::new(), set: false }
    }

    fn clear(&mut self)
        ensures
            final(self).contents() is None,
    {
        self.set = false;
    }

    fn is_some(&self) -> (r: bool)
        ensures
            r == self.contents() is Some,
    {
        self.set
    }

    fn set_value(&mut self, v: String)
        ensures
            final(self).contents() == Some(v@),
    {
        self.value = v;
        self.set = true;
    }

    /// The value to change in place; an unset field is first set to the empty string.
    fn mut_value(&mut self) -> (r: &mut String)
        ensures
            r@ == match old(self).contents() {
                Some(s) => s,
                None => Seq::<char>::empty(),
            },
            final(self).contents() == Some(final(r)@),
    {
        if !self.set {
            self.value = String::new();
            self.set = true;
        }
        &mut self.value
    }

    /// Takes the value out, leaving the field unset; an unset field gives the empty string.
    fn take(&mut self) -> (r: String)
        ensures
            r@ == match old(self).contents() {
                Some(s) => s,
                None => Seq::<char>::empty(),
            },
            final(self).contents() is None,
    {
        if self.set {
            let mut v = String::new();
            std::mem::swap(&mut v, &mut self.value);
            self.set = false;
            v
        } else {
            String::new()
        }
    }

    fn get(&self) -> (r: &str)
        ensures
            r@ == match self.contents() {
                Some(s) => s,
                None => Seq::<char>::empty(),
            },
    {
        if self.set {
            self.value.as_str()
        } else {
            let empty = "";
            proof {
                reveal_strlit("");
            }
            empty
        }
    }
}

/// A call that changes a sender field: `set_sender`, or `mut_sender` followed
/// by what was written through the reference, gives it a value; `clear_sender`
/// and `take_sender` unset it.
pub enum SenderCall {
    Assign(Seq<char>),
    Clear,
    Take,
}

/// The sender field after `call`, from `before`.
pub open spec fn sender_after_call(before: Option<Seq<char>>, call: SenderCall) -> Option<Seq<char>> {
    match call {
        SenderCall::Assign(v) => Some(v),
        SenderCall::Clear => None,
        SenderCall::Take => None,
    }
}

/// The sender field of a new message after `calls`, in order.
pub open spec fn sender_after_calls(calls: Seq<SenderCall>) -> Option<Seq<char>>
    decreases calls.len(),
{
    if calls.len() == 0 {
        None
    } else {
        sender_after_call(sender_after_calls(calls.drop_last()), calls.last())
    }
}

/// After a new message and any calls on its sender field, the field is set
/// (so `has_sender` and `is_initialized` of a JOIN say true) exactly when the
/// last call was `set_sender` or `mut_sender`.
pub proof fn lemma_sender_history(calls: Seq<SenderCall>)
    ensures
        sender_after_calls(calls) is Some <==> (calls.len() > 0 && calls.last() is Assign),
{
}

/// A run of calls on the sender field of a JOIN: `steps[0]` is a new
/// message, and each next step is what the contract of the accessor named by
/// `calls` gives from the one before. At the end of the run the field is
/// `sender_after_calls(calls)`, so `has_sender` and `is_initialized` say true
/// exactly when the last call was `set_sender` or `mut_sender`.
pub proof fn lemma_join_sender_run(steps: Seq<Join>, calls: Seq<SenderCall>)
    requires
        steps.len() == calls.len() + 1,
        steps[0].sender() is None,
        forall|i: int|
            1 <= i <= calls.len() ==> #[trigger] steps[i].sender() == sender_after_call(
                steps[i - 1].sender(),
                calls[i - 1],
            ),
    ensures
        steps.last().sender() == sender_after_calls(calls),
        steps.last().sender() is Some <==> (calls.len() > 0 && calls.last() is Assign),
    decreases calls.len(),
{
    if calls.len() > 0 {
        let shorter = steps.drop_last();
        let fewer = calls.drop_last();
        assert forall|i: int| 1 <= i <= fewer.len() implies #[trigger] shorter[i].sender()
            == sender_after_call(shorter[i - 1].sender(), fewer[i - 1]) by {
            assert(steps[i].sender() == sender_after_call(steps[i - 1].sender(), calls[i - 1]));
        }
        lemma_join_sender_run(shorter, fewer);
        assert(steps[calls.len() as int].sender() == sender_after_call(
            steps[calls.len() - 1].sender(),
            calls[calls.len() - 1],
        ));
    }
    lemma_sender_history(calls);
}

/// JOIN, with the sender's address as text.
#[derive(Clone, Debug)]
pub struct Join {
    sender: StringField,
}

impl Join {
    /// The sender field, when set.
    pub closed spec fn sender(&self) -> Option<Seq<char>> {
        self.sender.contents()
    }

    /// A message with no field set.
    pub fn new() -> (r: Join)
        ensures
            r.sender() is None,
    {
        Join { sender: StringField::none() }
    }

    pub fn clear_sender(&mut self)
        ensures
            final(self).sender() is None,
            final(self).sender() == sender_after_call(old(self).sender(), SenderCall::Clear),
    {
        self.sender.clear();
    }

    pub fn has_sender(&self) -> (r: bool)
        ensures
            r == self.sender() is Some,
    {
        self.sender.is_some()
    }

    pub fn set_sender(&mut self, v: String)
        ensures
            final(self).sender() == Some(v@),
            final(self).sender() == sender_after_call(old(self).sender(), SenderCall::Assign(v@)),
    {
        self.sender.set_value(v);
    }

    /// The sender to change in place; an unset sender is first set to the empty string.
    pub fn mut_sender(&mut self) -> (r: &mut String)
        ensures
            r@ == match old(self).sender() {
                Some(s) => s,
                None => Seq::<char>::empty(),
            },
            final(self).sender() == Some(final(r)@),
            final(self).sender() == sender_after_call(old(self).sender(), SenderCall::Assign(final(r)@)),
    {
        self.sender.mut_value()
    }

    /// Takes the sender out, leaving it unset; an unset sender gives the empty string.
    pub fn take_sender(&mut self) -> (r: String)
        ensures
            r@ == match old(self).sender() {
                Some(s) => s,
                None => Seq::<char>::empty(),
            },
            final(self).sender() is None,
            final(self).sender() == sender_after_call(old(self).sender(), SenderCall::Take),
    {
        self.sender.take()
    }

    /// The sender, or the empty string when it is unset.
    pub fn get_sender(&self) -> (r: &str)
        ensures
            r@ == match self.sender() {
                Some(s) => s,
                None => Seq::<char>::empty(),
            },
    {
        self.sender.get()
    }

    /// Unsets every field.
    pub fn clear(&mut self)
        ensures
            final(self).sender() is None,
    {
        self.sender.clear();
    }

    /// Whether every required field is set.
    pub fn is_initialized(&self) -> (r: bool)
        ensures
            r == self.sender() is Some,
    {
        self.sender.is_some()
    }
}

/// FORWARD_JOIN, with the sender's address as text and the walk's time to live.
#[derive(Clone, Debug)]
pub struct ForwardJoin {
    sender: StringField,
    ttl: Option<i32>,
}

impl ForwardJoin {
    /// The sender field, when set.
    pub closed spec fn sender(&self) -> Option<Seq<char>> {
        self.sender.contents()
    }

    /// The ttl field, when set.
    pub closed spec fn ttl(&self) -> Option<i32> {
        self.ttl
    }

    /// A message with no field set.
    pub fn new() -> (r: ForwardJoin)
        ensures
            r.sender() is None,
            r.ttl() is None,
    {
        ForwardJoin { sender: StringField::none(), ttl: None }
    }

    pub fn clear_sender(&mut self)
        ensures
            final(self).sender() is None,
            final(self).ttl() == old(self).ttl(),
    {
        self.sender.clear();
    }

    pub fn has_sender(&self) -> (r: bool)
        ensures
            r == self.sender() is Some,
    {
        self.sender.is_some()
    }

    pub fn set_sender(&mut self, v: String)
        ensures
            final(self).sender() == Some(v@),
            final(self).ttl() == old(self).ttl(),
    {
        self.sender.set_value(v);
    }

    /// The sender to change in place; an unset sender is first set to the empty string.
    pub fn mut_sender(&mut self) -> (r: &mut String)
        ensures
            r@ == match old(self).sender() {
                Some(s) => s,
                None => Seq::<char>::empty(),
            },
            final(self).sender() == Some(final(r)@),
            final(self).ttl() == old(self).ttl(),
    {
        self.sender.mut_value()
    }

    /// Takes the sender out, leaving it unset; an unset sender gives the empty string.
    pub fn take_sender(&mut self) -> (r: String)
        ensures
            r@ == match old(self).sender() {
                Some(s) => s,
                None => Seq::<char>::empty(),
            },
            final(self).sender() is None,
            final(self).ttl() == old(self).ttl(),
    {
        self.sender.take()
    }

    /// The sender, or the empty string when it is unset.
    pub fn get_sender(&self) -> (r: &str)
        ensures
            r@ == match self.sender() {
                Some(s) => s,
                None => Seq::<char>::empty(),
            },
    {
        self.sender.get()
    }

    pub fn clear_ttl(&mut self)
        ensures
            final(self).ttl() is None,
            final(self).sender() == old(self).sender(),
    {
        self.ttl = None;
    }

    pub fn has_ttl(&self) -> (r: bool)
        ensures
            r == self.ttl() is Some,
    {
        self.ttl.is_some()
    }

    pub fn set_ttl(&mut self, v: i32)
        ensures
            final(self).ttl() == Some(v),
            final(self).sender() == old(self).sender(),
    {
        self.ttl = Some(v);
    }

    /// The ttl, or 0 when it is unset.
    pub fn get_ttl(&self) -> (r: i32)
        ensures
            r == match self.ttl() {
                Some(t) => t,
                None => 0,
            },
    {
        match self.ttl {
            Some(t) => t,
            None => 0,
        }
    }

    /// Unsets every field.
    pub fn clear(&mut self)
        ensures
            final(self).sender() is None,
            final(self).ttl() is None,
    {
        self.sender.clear();
        self.ttl = None;
    }

    /// Whether every required field is set.
    pub fn is_initialized(&self) -> (r: bool)
        ensures
            r == (self.sender() is Some && self.ttl() is Some),
    {
        self.sender.is_some() && self.ttl.is_some()
    }
}

/// DISCONNECT, with the sender's address as text.
#[derive(Clone, Debug)]
pub struct Disconnect {
    sender: StringField,
}

impl Disconnect {
    /// The sender field, when set.
    pub closed spec fn sender(&self) -> Option<Seq<char>> {
        self.sender.contents()
    }

    /// A message with no field set.
    pub fn new() -> (r: Disconnect)
        ensures
            r.sender() is None,
    {
        Disconnect { sender: StringField::none() }
    }

    pub fn clear_sender(&mut self)
        ensures
            final(self).sender() is None,
    {
        self.sender.clear();
    }

    pub fn has_sender(&self) -> (r: bool)
        ensures
            r == self.sender() is Some,
    {
        self.sender.is_some()
    }

    pub fn set_sender(&mut self, v: String)
        ensures
            final(self).sender() == Some(v@),
    {
        self.sender.set_value(v);
    }

    /// The sender to change in place; an unset sender is first set to the empty string.
    pub fn mut_sender(&mut self) -> (r: &mut String)
        ensures
            r@ == match old(self).sender() {
                Some(s) => s,
                None => Seq::<char>::empty(),
            },
            final(self).sender() == Some(final(r)@),
    {
        self.sender.mut_value()
    }

    /// Takes the sender out, leaving it unset; an unset sender gives the empty string.
    pub fn take_sender(&mut self) -> (r: String)
        ensures
            r@ == match old(self).sender() {
                Some(s) => s,
                None => Seq::<char>::empty(),
            },
            final(self).sender() is None,
    {
        self.sender.take()
    }

    /// The sender, or the empty string when it is unset.
    pub fn get_sender(&self) -> (r: &str)
        ensures
            r@ == match self.sender() {
                Some(s) => s,
                None => Seq::<char>::empty(),
            },
    {
        self.sender.get()
    }

    /// Unsets every field.
    pub fn clear(&mut self)
        ensures
            final(self).sender() is None,
    {
        self.sender.clear();
    }

    /// Whether every required field is set.
    pub fn is_initialized(&self) -> (r: bool)
        ensures
            r == self.sender() is Some,
    {
        self.sender.is_some()
    }
}

/// Priority of a NEIGHBOR message; `value` gives its number on the wire.
#[allow(non_camel_case_types)]
#[derive(Clone, Copy, Debug, PartialEq, Eq, Structural)]
pub enum Neighbor_Priority {
    high,
    low,
}

impl Neighbor_Priority {
    pub open spec fn spec_value(&self) -> i32 {
        match self {
            Neighbor_Priority::high => 1,
            Neighbor_Priority::low => 2,
        }
    }

    /// The number of the priority: 1 for high, 2 for low.
    pub fn value(&self) -> (r: i32)
        ensures
            r == self.spec_value(),
    {
        match self {
            Neighbor_Priority::high => 1,
            Neighbor_Priority::low => 2,
        }
    }

    /// The priority with number `value`, if any.
    pub fn from_i32(value: i32) -> (r: Option<Neighbor_Priority>)
        ensures
            value == 1 ==> r == Some(Neighbor_Priority::high),
            value == 2 ==> r == Some(Neighbor_Priority::low),
            value != 1 && value != 2 ==> r is None,
    {
        match value {
            1 => Some(Neighbor_Priority::high),
            2 => Some(Neighbor_Priority::low),
            _ => None,
        }
    }
}

/// NEIGHBOR, with the sender's address as text and the request's priority.
#[derive(Clone, Debug)]
pub struct Neighbor {
    sender: StringField,
    priority: Option<Neighbor_Priority>,
}

impl Neighbor {
    /// The sender field, when set.
    pub closed spec fn sender(&self) -> Option<Seq<char>> {
        self.sender.contents()
    }

    /// The priority field, when set.
    pub closed spec fn priority(&self) -> Option<Neighbor_Priority> {
        self.priority
    }

    /// A message with no field set.
    pub fn new() -> (r: Neighbor)
        ensures
            r.sender() is None,
            r.priority() is None,
    {
        Neighbor { sender: StringField::none(), priority: None }
    }

    pub fn clear_sender(&mut self)
        ensures
            final(self).sender() is None,
            final(self).priority() == old(self).priority(),
    {
        self.sender.clear();
    }

    pub fn has_sender(&self) -> (r: bool)
        ensures
            r == self.sender() is Some,
    {
        self.sender.is_some()
    }

    pub fn set_sender(&mut self, v: String)
        ensures
            final(self).sender() == Some(v@),
            final(self).priority() == old(self).priority(),
    {
        self.sender.set_value(v);
    }

    /// The sender to change in place; an unset sender is first set to the empty string.
    pub fn mut_sender(&mut self) -> (r: &mut String)
        ensures
            r@ == match old(self).sender() {
                Some(s) => s,
                None => Seq::<char>::empty(),
            },
            final(self).sender() == Some(final(r)@),
            final(self).priority() == old(self).priority(),
    {
        self.sender.mut_value()
    }

    /// Takes the sender out, leaving it unset; an unset sender gives the empty string.
    pub fn take_sender(&mut self) -> (r: String)
        ensures
            r@ == match old(self).sender() {
                Some(s) => s,
                None => Seq::<char>::empty(),
            },
            final(self).sender() is None,
            final(self).priority() == old(self).priority(),
    {
        self.sender.take()
    }

    /// The sender, or the empty string when it is unset.
    pub fn get_sender(&self) -> (r: &str)
        ensures
            r@ == match self.sender() {
                Some(s) => s,
                None => Seq::<char>::empty(),
            },
    {
        self.sender.get()
    }

    pub fn clear_priority(&mut self)
        ensures
            final(self).priority() is None,
            final(self).sender() == old(self).sender(),
    {
        self.priority = None;
    }

    pub fn has_priority(&self) -> (r: bool)
        ensures
            r == self.priority() is Some,
    {
        self.priority.is_some()
    }

    pub fn set_priority(&mut self, v: Neighbor_Priority)
        ensures
            final(self).priority() == Some(v),
            final(self).sender() == old(self).sender(),
    {
        self.priority = Some(v);
    }

    /// The priority, or high when it is unset.
    pub fn get_priority(&self) -> (r: Neighbor_Priority)
        ensures
            r == match self.priority() {
                Some(p) => p,
                None => Neighbor_Priority::high,
            },
    {
        match self.priority {
            Some(p) => p,
            None => Neighbor_Priority::high,
        }
    }

    /// Unsets every field.
    pub fn clear(&mut self)
        ensures
            final(self).sender() is None,
            final(self).priority() is None,
    {
        self.sender.clear();
        self.priority = None;
    }

    /// Whether every required field is set.
    pub fn is_initialized(&self) -> (r: bool)
        ensures
            r == (self.sender() is Some && self.priority() is Some),
    {
        self.sender.is_some() && self.priority.is_some()
    }
}

/// NEIGHBOR rejection, with the sender's address as text.
#[derive(Clone, Debug)]
pub struct NeighborReject {
    sender: StringField,
}

impl NeighborReject {
    /// The sender field, when set.
    pub closed spec fn sender(&self) -> Option<Seq<char>> {
        self.sender.contents()
    }

    /// A message with no field set.
    pub fn new() -> (r: NeighborReject)
        ensures
            r.sender() is None,
    {
        NeighborReject { sender: StringField::none() }
    }

    pub fn clear_sender(&mut self)
        ensures
            final(self).sender() is None,
    {
        self.sender.clear();
    }

    pub fn has_sender(&self) -> (r: bool)
        ensures
            r == self.sender() is Some,
    {
        self.sender.is_some()
    }

    pub fn set_sender(&mut self, v: String)
        ensures
            final(self).sender() == Some(v@),
    {
        self.sender.set_value(v);
    }

    /// The sender to change in place; an unset sender is first set to the empty string.
    pub fn mut_sender(&mut self) -> (r: &mut String)
        ensures
            r@ == match old(self).sender() {
                Some(s) => s,
                None => Seq::<char>::empty(),
            },
            final(self).sender() == Some(final(r)@),
    {
        self.sender.mut_value()
    }

    /// Takes the sender out, leaving it unset; an unset sender gives the empty string.
    pub fn take_sender(&mut self) -> (r: String)
        ensures
            r@ == match old(self).sender() {
                Some(s) => s,
                None => Seq::<char>::empty(),
            },
            final(self).sender() is None,
    {
        self.sender.take()
    }

    /// The sender, or the empty string when it is unset.
    pub fn get_sender(&self) -> (r: &str)
        ensures
            r@ == match self.sender() {
                Some(s) => s,
                None => Seq::<char>::empty(),
            },
    {
        self.sender.get()
    }

    /// Unsets every field.
    pub fn clear(&mut self)
        ensures
            final(self).sender() is None,
    {
        self.sender.clear();
    }

    /// Whether every required field is set.
    pub fn is_initialized(&self) -> (r: bool)
        ensures
            r == self.sender() is Some,
    {
        self.sender.is_some()
    }
}

} // verus!
