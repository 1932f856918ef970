use vstd::prelude::*;
use crate::container::{Container, Instance, frame_preserved};
use crate::InjectionError;

verus! {

/// A factory that produces type-erased instances for the container.
///
/// Implementors are the registrants' side of the registry: a value of the
/// implementing type is stored in a binding and, when the capability it was
/// bound under is resolved, `resolve_injectable` is invoked with the
/// container so that the factory may recursively resolve its own
/// dependencies. The produced `Instance` carries the tag of the capability
/// the factory claims to implement; the resolution engine checks that tag
/// against the one requested.
///
/// A factory is held to the table's frame: it may read the table and
/// resolve other capabilities through it — which can fill empty `Singleton`
/// cache slots — but it must not rebind, so the bound identities, every
/// lifecycle and factory, and every cache already set survive the call.
/// The engine's own guarantees, `build`'s above all, rest on implementors
/// honoring this; an implementation that only calls `resolve_mut` and
/// `resolve` honors it by those functions' own contracts.
pub trait Injectable<T>: Sized {
    fn resolve_injectable(&self, container: &mut Container<Self, T>) -> (r: Result<
        Instance<T>,
        InjectionError,
    >)
        ensures
            frame_preserved(*old(container), *final(container)),
    ;
}

/// A convenience contract for consumers: a type that knows how to assemble
/// itself out of the bindings of a container.
pub trait FromContainer<F, T>: Sized {
    fn from_container(container: &mut Container<F, T>) -> Result<Self, InjectionError>;
}

} // verus!
