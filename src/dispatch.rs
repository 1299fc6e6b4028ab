//! Which snapshots a change notification invalidates.
use vstd::prelude::*;

verus! {

/// A change notification: a watched collection changed.
#[derive(Clone, Copy, Debug, PartialEq, Eq, Structural)]
pub enum Event {
    Configs,
    Users,
    Roles,
    Apps,
}

/// A snapshot that the dispatcher rebuilds.
#[derive(Clone, Copy, Debug, PartialEq, Eq, Structural)]
pub enum Target {
    Configs,
    Keys,
    Users,
    Roles,
    Apps,
}

/// The snapshots to rebuild, in order, when `e` arrives: a change of the
/// configurations also renews the signing keys derived from them.
pub open spec fn targets_of(e: Event) -> Seq<Target> {
    match e {
        Event::Configs => seq![Target::Configs, Target::Keys],
        Event::Users => seq![Target::Users],
        Event::Roles => seq![Target::Roles],
        Event::Apps => seq![Target::Apps],
    }
}

impl Event {
    /// The snapshots to rebuild, in order, for this notification.
    pub fn targets(&self) -> (r: Vec<Target>)
        ensures
            r@ == targets_of(*self),
    {
        let r = match self {
            Event::Configs => vec![Target::Configs, Target::Keys],
            Event::Users => vec![Target::Users],
            Event::Roles => vec![Target::Roles],
            Event::Apps => vec![Target::Apps],
        };
        assert(r@ =~= targets_of(*self));
        r
    }
}

} // verus!
