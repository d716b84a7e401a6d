use vstd::prelude::*;

verus! {

/// Identifier of an object in the store.
pub type ObjectId = u64;

/// How a transaction declares one of its inputs.
#[derive(Clone, Copy, Debug, PartialEq, Eq)]
pub enum InputObjectKind {
    /// An immutable or owned object.
    ImmOrOwned(ObjectId),
    /// A shared object, with the version at which it became shared.
    Shared { id: ObjectId, initial_shared_version: u64, mutable: bool },
    /// A package; it takes no part in dependency tracking.
    Package(ObjectId),
}

impl InputObjectKind {
    /// The object id this input contributes to a footprint, if any.
    pub open spec fn footprint_id(self) -> Option<ObjectId> {
        match self {
            InputObjectKind::ImmOrOwned(id) => Some(id),
            InputObjectKind::Shared { id, .. } => Some(id),
            InputObjectKind::Package(_) => None,
        }
    }
}

/// The ids contributed by a sequence of inputs, in order.
pub open spec fn footprint_of(inputs: Seq<InputObjectKind>) -> Seq<ObjectId>
    decreases inputs.len(),
{
    if inputs.len() == 0 {
        Seq::empty()
    } else {
        let rest = footprint_of(inputs.drop_last());
        match inputs.last().footprint_id() {
            Some(id) => rest.push(id),
            None => rest,
        }
    }
}

/// Extracts the object footprint of a transaction: the id of every owned,
/// immutable or shared input, in order; packages are left out.
pub fn footprint(inputs: &Vec<InputObjectKind>) -> (r: Vec<ObjectId>)
    ensures
        r@ == footprint_of(inputs@),
{
    let mut r: Vec<ObjectId> = Vec::new();
    let mut i: usize = 0;
    while i < inputs.len()
        invariant
            i <= inputs@.len(),
            r@ == footprint_of(inputs@.take(i as int)),
        decreases inputs@.len() - i,
    {
        assert(inputs@.take(i as int + 1).drop_last() == inputs@.take(i as int));
        match inputs[i] {
            InputObjectKind::ImmOrOwned(id) => r.push(id),
            InputObjectKind::Shared { id, .. } => r.push(id),
            InputObjectKind::Package(_) => {},
        }
        i = i + 1;
    }
    assert(inputs@.take(inputs@.len() as int) == inputs@);
    r
}

} // verus!
