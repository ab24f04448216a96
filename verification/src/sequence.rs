//! The parsed tree: an ordered sequence of entities, each a comparison or a
//! nested child sequence, tagged with the logic that combines it with the
//! entities before it.

use vstd::prelude::*;

use crate::compare::{Comparison, ComparisonModel, Logic};

verus! {

/// An entry of a [`Sequence`]: either a nested child sequence (one
/// parenthesized group) or a single comparison, tagged with the logic that
/// combines it with the accumulated result of the entries before it.
#[derive(Debug, PartialEq)]
pub enum Entity {
    /// A nested sequence, from a parenthesized group.
    Child(Sequence, Option<Logic>),
    /// A comparison on the current level.
    Comparison(Comparison, Option<Logic>),
}

/// An ordered list of entities: the unit produced by parsing one
/// parenthesized group or the whole input.
#[derive(Debug, PartialEq)]
pub struct Sequence {
    pub items: Vec<Entity>,
}

/// The mathematical image of an [`Entity`].
pub enum EntityModel {
    Child(Seq<EntityModel>, Option<Logic>),
    Comparison(ComparisonModel, Option<Logic>),
}

/// The image of an [`Entity`].
pub open spec fn entity_model(e: Entity) -> EntityModel
    decreases e,
{
    match e {
        Entity::Child(sub, logic) => EntityModel::Child(entities_model(sub.items@), logic),
        Entity::Comparison(c, logic) => EntityModel::Comparison(c@, logic),
    }
}

/// The image of a list of entities.
pub open spec fn entities_model(items: Seq<Entity>) -> Seq<EntityModel>
    decreases items,
{
    if items.len() == 0 {
        Seq::empty()
    } else {
        entities_model(items.drop_last()).push(entity_model(items.last()))
    }
}

impl View for Entity {
    type V = EntityModel;

    open spec fn view(&self) -> EntityModel {
        entity_model(*self)
    }
}

impl View for Sequence {
    type V = Seq<EntityModel>;

    open spec fn view(&self) -> Seq<EntityModel> {
        entities_model(self.items@)
    }
}

/// The image of a list indexes to the images of its elements.
pub proof fn lemma_entities_model_index(items: Seq<Entity>)
    ensures
        entities_model(items).len() == items.len(),
        forall|i: int|
            0 <= i < items.len() ==> #[trigger] entities_model(items)[i] == entity_model(items[i]),
    decreases items.len(),
{
    if items.len() > 0 {
        lemma_entities_model_index(items.drop_last());
    }
}

impl Sequence {
    /// An empty sequence.
    pub fn new() -> (r: Sequence)
        ensures
            r@ == Seq::<EntityModel>::empty(),
    {
        Sequence { items: Vec::new() }
    }
}

impl Entity {
    /// The logic tag that combines this entity with the entries before it.
    pub fn logic(&self) -> (r: Option<Logic>)
        ensures
            r == spec_entity_logic(self@),
    {
        match self {
            Entity::Child(_, logic) => *logic,
            Entity::Comparison(_, logic) => *logic,
        }
    }
}

impl Default for Sequence {
    fn default() -> (r: Sequence)
        ensures
            r@ == Seq::<EntityModel>::empty(),
    {
        Sequence { items: Vec::new() }
    }
}

/// The logic tag of an entity's image.
pub open spec fn spec_entity_logic(e: EntityModel) -> Option<Logic> {
    match e {
        EntityModel::Child(_, logic) => logic,
        EntityModel::Comparison(_, logic) => logic,
    }
}

} // verus!
