//! Typed DOM event descriptors.
//!
//! An event descriptor names an event, carries the key used for global event
//! delegation, and says whether the event bubbles: only a bubbling event is
//! delegated globally, the others get listeners attached directly. The
//! concrete browser event types live with the DOM bindings; the logic here is
//! the naming and delegation-key scheme.

use vstd::prelude::*;

verus! {

/// A descriptor of a DOM event type, for users to implement alongside the
/// built-in ones.
pub trait EventDescriptor: Sized {
    /// The event's name, such as `click` or `mouseover`.
    spec fn spec_name(&self) -> Seq<char>;

    /// The key used for event delegation.
    spec fn spec_delegation_key(&self) -> Seq<char>;

    /// Whether this event bubbles. A bubbling event is delegated globally;
    /// otherwise listeners are attached directly to the element.
    spec fn spec_bubbles(&self) -> bool;

    fn name(&self) -> (r: String)
        ensures
            r@ == self.spec_name(),
    ;

    fn event_delegation_key(&self) -> (r: String)
        ensures
            r@ == self.spec_delegation_key(),
    ;

    fn bubbles(&self) -> (r: bool)
        ensures
            r == self.spec_bubbles(),
    ;
}

/// A custom event, for event types not covered by the built-in descriptors.
/// It is never delegated globally.
#[derive(Clone)]
pub struct Custom {
    pub key: String,
}

impl Custom {
    /// Create a custom event type from its name.
    pub fn new(name: String) -> (r: Custom)
        ensures
            r.spec_name() == name@,
    {
        Custom { key: name }
    }
}

impl EventDescriptor for Custom {
    open spec fn spec_name(&self) -> Seq<char> {
        self.key@
    }

    open spec fn spec_delegation_key(&self) -> Seq<char> {
        "$$$"@ + self.key@
    }

    open spec fn spec_bubbles(&self) -> bool {
        false
    }

    fn name(&self) -> (r: String) {
        self.key.clone()
    }

    fn event_delegation_key(&self) -> (r: String) {
        let mut k = String::new();
        k.append("$$$");
        k.append(self.key.as_str());
        k
    }

    fn bubbles(&self) -> (r: bool) {
        false
    }
}

/// Overrides another descriptor's `bubbles` to always answer `false`, which
/// forces the event not to be globally delegated.
#[allow(non_camel_case_types)]
#[derive(Clone)]
pub struct undelegated<Ev: EventDescriptor>(pub Ev);

impl<Ev: EventDescriptor> EventDescriptor for undelegated<Ev> {
    open spec fn spec_name(&self) -> Seq<char> {
        self.0.spec_name()
    }

    open spec fn spec_delegation_key(&self) -> Seq<char> {
        self.0.spec_delegation_key()
    }

    open spec fn spec_bubbles(&self) -> bool {
        false
    }

    fn name(&self) -> (r: String) {
        self.0.name()
    }

    fn event_delegation_key(&self) -> (r: String) {
        self.0.event_delegation_key()
    }

    fn bubbles(&self) -> (r: bool) {
        false
    }
}

} // verus!
