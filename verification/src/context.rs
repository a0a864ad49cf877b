//! Scoped, type-keyed dependency lookup.
//!
//! A [`ContextStack`] is an ordered stack of type-tagged entries.  Lookup
//! scans from the most recently pushed entry backward and returns the first
//! entry whose payload matches the requested type tag, so an entry pushed for
//! a subtree shadows any deeper entry of the same type.  Pushes are strictly
//! stack-disciplined: the reconciler pushes an entry before updating a
//! subtree's children and pops it before returning to the parent.

use vstd::prelude::*;

verus! {

/// System-level context controlling the run loop.
#[derive(Clone, Copy, Debug, PartialEq, Eq, Structural)]
pub struct SystemContext {
    pub should_exit: bool,
}

impl SystemContext {
    pub fn new() -> (r: SystemContext)
        ensures
            !r.should_exit,
    {
        SystemContext { should_exit: false }
    }

    pub fn should_exit(&self) -> (r: bool)
        ensures
            r == self.should_exit,
    {
        self.should_exit
    }

    /// Asks the run loop to stop after the current pass.
    pub fn exit(&mut self)
        ensures
            final(self).should_exit,
    {
        self.should_exit = true;
    }
}

/// The closed set of payload types a context entry can carry.
#[derive(Clone, Copy, Debug, PartialEq, Eq, Structural)]
pub enum TypeTag {
    System,
    Int,
    Flag,
}

/// A type-tagged context payload.
#[derive(Clone, Copy, Debug, PartialEq, Eq, Structural)]
pub enum ContextValue {
    System(SystemContext),
    Int(i64),
    Flag(bool),
}

impl ContextValue {
    /// The runtime type tag of this payload.
    pub open spec fn spec_tag(&self) -> TypeTag {
        match self {
            ContextValue::System(_) => TypeTag::System,
            ContextValue::Int(_) => TypeTag::Int,
            ContextValue::Flag(_) => TypeTag::Flag,
        }
    }

    /// Reads the runtime type tag of this payload.
    pub fn tag(&self) -> (r: TypeTag)
        ensures
            r == self.spec_tag(),
    {
        match self {
            ContextValue::System(_) => TypeTag::System,
            ContextValue::Int(_) => TypeTag::Int,
            ContextValue::Flag(_) => TypeTag::Flag,
        }
    }
}

/// A context entry: a payload together with its ownership mode.
///
/// An owned entry carries its own payload; a shared entry stands for a
/// read-only view of a caller's value and refuses writable downcasts; a
/// writable entry stands for an exclusive view of a caller's value.
#[derive(Clone, Copy, Debug, PartialEq, Eq, Structural)]
pub enum Context {
    Ref(ContextValue),
    Mut(ContextValue),
    Owned(ContextValue),
}

impl Context {
    /// The payload, whatever the mode.
    pub open spec fn spec_value(&self) -> ContextValue {
        match self {
            Context::Ref(v) => *v,
            Context::Mut(v) => *v,
            Context::Owned(v) => *v,
        }
    }

    /// Wraps a payload as an owned context entry.
    pub fn owned(context: ContextValue) -> (r: Context)
        ensures
            r == Context::Owned(context),
    {
        Context::Owned(context)
    }

    /// Wraps a snapshot of a caller's payload as a read-only entry.
    pub fn form_ref(context: &ContextValue) -> (r: Context)
        ensures
            r == Context::Ref(*context),
    {
        Context::Ref(*context)
    }

    /// Wraps a snapshot of a caller's payload as a writable entry.
    pub fn form_mut(context: &mut ContextValue) -> (r: Context)
        ensures
            *final(context) == *old(context),
            r == Context::Mut(*old(context)),
    {
        Context::Mut(*context)
    }

    /// Read-only downcast: the payload if its type matches the request.
    pub fn downcast_ref(&self, tag: TypeTag) -> (r: Option<&ContextValue>)
        ensures
            match r {
                Some(v) => *v == self.spec_value() && v.spec_tag() == tag,
                None => self.spec_value().spec_tag() != tag,
            },
    {
        let v = match self {
            Context::Ref(v) => v,
            Context::Mut(v) => v,
            Context::Owned(v) => v,
        };
        if v.tag() == tag {
            Some(v)
        } else {
            None
        }
    }

    /// Writable downcast: refused for read-only entries, otherwise the
    /// payload if its type matches the request.
    pub fn downcast_mut(&mut self, tag: TypeTag) -> (r: Option<&mut ContextValue>)
        ensures
            match r {
                Some(v) => {
                    &&& *v == old(self).spec_value()
                    &&& v.spec_tag() == tag
                    &&& !(*old(self) is Ref)
                    &&& final(self).spec_value() == *final(v)
                    &&& (*final(self) is Mut) == (*old(self) is Mut)
                    &&& (*final(self) is Owned) == (*old(self) is Owned)
                },
                None => {
                    &&& *final(self) == *old(self)
                    &&& (*old(self) is Ref || old(self).spec_value().spec_tag() != tag)
                },
            },
    {
        match self {
            Context::Ref(_) => None,
            Context::Mut(v) => {
                if v.tag() == tag {
                    Some(v)
                } else {
                    None
                }
            },
            Context::Owned(v) => {
                if v.tag() == tag {
                    Some(v)
                } else {
                    None
                }
            },
        }
    }

    /// Re-borrows the entry for a nested scope: an owned entry hands out a
    /// writable view, the borrowed modes keep their mode.
    pub fn borrow(&mut self) -> (r: Context)
        ensures
            *final(self) == *old(self),
            r.spec_value() == old(self).spec_value(),
            r is Ref <==> *old(self) is Ref,
    {
        match self {
            Context::Ref(v) => Context::Ref(*v),
            Context::Mut(v) => Context::Mut(*v),
            Context::Owned(v) => Context::Mut(*v),
        }
    }
}

/// The innermost position in `s` whose payload carries tag `t`, if any.
pub open spec fn ctx_lookup(s: Seq<Context>, t: TypeTag) -> Option<int>
    decreases s.len(),
{
    if s.len() == 0 {
        Option::None
    } else if s.last().spec_value().spec_tag() == t {
        Option::Some(s.len() - 1)
    } else {
        ctx_lookup(s.drop_last(), t)
    }
}

/// The innermost position in `s` whose payload carries tag `t` and whose
/// mode admits a writable downcast, if any.
pub open spec fn ctx_lookup_mut(s: Seq<Context>, t: TypeTag) -> Option<int>
    decreases s.len(),
{
    if s.len() == 0 {
        Option::None
    } else if s.last().spec_value().spec_tag() == t && !(s.last() is Ref) {
        Option::Some(s.len() - 1)
    } else {
        ctx_lookup_mut(s.drop_last(), t)
    }
}

/// A nesting stack of type-tagged context entries.
pub struct ContextStack {
    pub stack: Vec<Context>,
}

impl View for ContextStack {
    type V = Seq<Context>;

    open spec fn view(&self) -> Seq<Context> {
        self.stack@
    }
}

impl ContextStack {
    /// A stack holding only the system context, the root of every pass.
    pub fn root(root_context: SystemContext) -> (r: ContextStack)
        ensures
            r@ == seq![Context::Mut(ContextValue::System(root_context))],
    {
        let mut stack: Vec<Context> = Vec::new();
        stack.push(Context::Mut(ContextValue::System(root_context)));
        proof {
            assert(stack@ =~= seq![Context::Mut(ContextValue::System(root_context))]);
        }
        ContextStack { stack }
    }

    /// Pushes an entry for a subtree's evaluation.
    pub fn push(&mut self, context: Context)
        ensures
            final(self)@ == old(self)@.push(context),
    {
        self.stack.push(context);
    }

    /// Pops the innermost entry when a subtree's evaluation returns.
    pub fn pop(&mut self) -> (r: Option<Context>)
        ensures
            match r {
                Some(c) => {
                    &&& old(self)@.len() > 0
                    &&& c == old(self)@.last()
                    &&& final(self)@ == old(self)@.drop_last()
                },
                None => old(self)@.len() == 0 && final(self)@ == old(self)@,
            },
    {
        self.stack.pop()
    }

    /// The number of entries on the stack.
    pub fn len(&self) -> (r: usize)
        ensures
            r == self@.len(),
    {
        self.stack.len()
    }

    /// Looks up the innermost entry of the requested type, read-only.
    pub fn get_context(&self, tag: TypeTag) -> (r: Option<&ContextValue>)
        ensures
            match r {
                Some(v) => {
                    &&& ctx_lookup(self@, tag) is Some
                    &&& *v == self@[ctx_lookup(self@, tag)->0].spec_value()
                    &&& v.spec_tag() == tag
                },
                None => ctx_lookup(self@, tag) is None,
            },
    {
        let mut i: usize = self.stack.len();
        proof {
            assert(self@.take(self@.len() as int) =~= self@);
        }
        while i > 0
            invariant
                i <= self@.len(),
                ctx_lookup(self@, tag) == ctx_lookup(self@.take(i as int), tag),
            decreases i,
        {
            i = i - 1;
            proof {
                assert(self@.take(i + 1).drop_last() =~= self@.take(i as int));
                assert(self@.take(i + 1).last() == self@[i as int]);
            }
            let r = self.stack[i].downcast_ref(tag);
            if r.is_some() {
                return r;
            }
        }
        proof {
            assert(self@.take(0) =~= Seq::<Context>::empty());
        }
        None
    }

    /// Looks up the innermost entry of the requested type that admits a
    /// writable downcast, and hands out exclusive access to it.
    pub fn get_context_mut(&mut self, tag: TypeTag) -> (r: Option<&mut ContextValue>)
        ensures
            match r {
                Some(v) => {
                    &&& ctx_lookup_mut(old(self)@, tag) is Some
                    &&& {
                        let j = ctx_lookup_mut(old(self)@, tag)->0;
                        &&& *v == old(self)@[j].spec_value()
                        &&& v.spec_tag() == tag
                        &&& final(self)@.len() == old(self)@.len()
                        &&& forall|i: int|
                            0 <= i < old(self)@.len() && i != j ==> final(self)@[i] == old(
                                self,
                            )@[i]
                        &&& final(self)@[j].spec_value() == *final(v)
                        &&& (final(self)@[j] is Mut) == (old(self)@[j] is Mut)
                        &&& (final(self)@[j] is Owned) == (old(self)@[j] is Owned)
                    }
                },
                None => {
                    &&& ctx_lookup_mut(old(self)@, tag) is None
                    &&& final(self)@ == old(self)@
                },
            },
    {
        let mut i: usize = self.stack.len();
        proof {
            assert(self@.take(self@.len() as int) =~= self@);
        }
        while i > 0
            invariant
                i <= self@.len(),
                *self == *old(self),
                ctx_lookup_mut(self@, tag) == ctx_lookup_mut(self@.take(i as int), tag),
            decreases i,
        {
            i = i - 1;
            proof {
                assert(self@.take(i + 1).drop_last() =~= self@.take(i as int));
                assert(self@.take(i + 1).last() == self@[i as int]);
            }
            let found = match &self.stack[i] {
                Context::Ref(_) => false,
                Context::Mut(v) => v.tag() == tag,
                Context::Owned(v) => v.tag() == tag,
            };
            if found {
                let entry = &mut self.stack[i];
                let r = entry.downcast_mut(tag);
                return r;
            }
        }
        proof {
            assert(self@.take(0) =~= Seq::<Context>::empty());
        }
        None
    }
}

} // verus!
