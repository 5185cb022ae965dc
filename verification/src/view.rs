use crate::common::Sharable;
use crate::layouts::{MultiChildLayout, StatefulLayout, StatelessLayout};
use crate::models::Color;
use crate::nodes::{BoxNode, Node};
use vstd::prelude::*;

verus! {

/// One element of the scene: a layout of one of three kinds, or a leaf. `L`,
/// `S`, `M` and `N` are the types that stand for the stateless layouts, the
/// stateful layouts, the layouts with many children, and the leaves.
#[derive(Debug)]
pub enum View<L, S, M, N> {
    StatelessLayout(Box<L>),
    StatefulLayout(Box<S>),
    MultiChildLayout(Box<M>),
    Node(Box<N>),
}

impl<L, S, M> Default for View<L, S, M, BoxNode> {
    /// A leaf that is a box of no colour.
    fn default() -> (view: Self)
        ensures
            view == View::<L, S, M, BoxNode>::Node(Box::new(BoxNode { color: Color { argb: 0 } })),
    {
        View::Node(Box::new(BoxNode::default()))
    }
}

/// Makes a child out of a stateless layout.
pub trait FromStatelessLayout<T>: Sized {
    /// The child that holds `value`.
    spec fn of_stateless_layout(value: T) -> Self;

    fn from(value: T) -> (child: Self)
        ensures
            child == Self::of_stateless_layout(value),
    ;
}

/// Turns a stateless layout into a child that its parent owns.
pub trait IntoViewFromStatelessLayout<S, M, N>: Sized {
    fn into_view(self) -> (child: Option<Sharable<View<Self, S, M, N>>>)
        ensures
            child == Some(Sharable::Owned(View::<Self, S, M, N>::StatelessLayout(Box::new(self)))),
    ;
}

impl<L, S, M, N> FromStatelessLayout<L> for Option<Sharable<View<L, S, M, N>>> {
    open spec fn of_stateless_layout(value: L) -> Self {
        Some(Sharable::Owned(View::StatelessLayout(Box::new(value))))
    }

    fn from(value: L) -> Self {
        Some(Sharable::Owned(View::StatelessLayout(Box::new(value))))
    }
}

impl<L: StatelessLayout<View<L, S, M, N>>, S, M, N> IntoViewFromStatelessLayout<S, M, N> for L {
    fn into_view(self) -> Option<Sharable<View<L, S, M, N>>> {
        <Option<Sharable<View<L, S, M, N>>> as FromStatelessLayout<L>>::from(self)
    }
}

/// Makes a child out of a stateful layout.
pub trait FromStatefulLayout<T>: Sized {
    /// The child that holds `value`.
    spec fn of_stateful_layout(value: T) -> Self;

    fn from(value: T) -> (child: Self)
        ensures
            child == Self::of_stateful_layout(value),
    ;
}

/// Turns a stateful layout into a child that its parent owns. `St` is the
/// type of the layout's state.
pub trait IntoViewFromStatefulLayout<L, M, N, St>: Sized {
    fn into_view(self) -> (child: Option<Sharable<View<L, Self, M, N>>>)
        ensures
            child == Some(Sharable::Owned(View::<L, Self, M, N>::StatefulLayout(Box::new(self)))),
    ;
}

impl<L, S, M, N> FromStatefulLayout<S> for Option<Sharable<View<L, S, M, N>>> {
    open spec fn of_stateful_layout(value: S) -> Self {
        Some(Sharable::Owned(View::StatefulLayout(Box::new(value))))
    }

    fn from(value: S) -> Self {
        Some(Sharable::Owned(View::StatefulLayout(Box::new(value))))
    }
}

impl<L, S: StatefulLayout<St>, M, N, St> IntoViewFromStatefulLayout<L, M, N, St> for S {
    fn into_view(self) -> Option<Sharable<View<L, S, M, N>>> {
        <Option<Sharable<View<L, S, M, N>>> as FromStatefulLayout<S>>::from(self)
    }
}

/// Makes a child out of a layout with many children.
pub trait FromMultiChildLayout<T>: Sized {
    /// The child that holds `value`.
    spec fn of_multi_child_layout(value: T) -> Self;

    fn from(value: T) -> (child: Self)
        ensures
            child == Self::of_multi_child_layout(value),
    ;
}

/// Turns a layout with many children into a child that its parent owns.
pub trait IntoViewFromMultiChildLayout<L, S, N>: Sized {
    fn into_view(self) -> (child: Option<Sharable<View<L, S, Self, N>>>)
        ensures
            child == Some(
                Sharable::Owned(View::<L, S, Self, N>::MultiChildLayout(Box::new(self))),
            ),
    ;
}

impl<L, S, M, N> FromMultiChildLayout<M> for Option<Sharable<View<L, S, M, N>>> {
    open spec fn of_multi_child_layout(value: M) -> Self {
        Some(Sharable::Owned(View::MultiChildLayout(Box::new(value))))
    }

    fn from(value: M) -> Self {
        Some(Sharable::Owned(View::MultiChildLayout(Box::new(value))))
    }
}

impl<L, S, M: MultiChildLayout<View<L, S, M, N>>, N> IntoViewFromMultiChildLayout<L, S, N> for M {
    fn into_view(self) -> Option<Sharable<View<L, S, M, N>>> {
        <Option<Sharable<View<L, S, M, N>>> as FromMultiChildLayout<M>>::from(self)
    }
}

/// Makes a child out of a leaf.
pub trait FromNode<T>: Sized {
    /// The child that holds `value`.
    spec fn of_node(value: T) -> Self;

    fn from(value: T) -> (child: Self)
        ensures
            child == Self::of_node(value),
    ;
}

/// Turns a leaf into a child that its parent owns.
pub trait IntoViewFromNode<L, S, M>: Sized {
    fn into_view(self) -> (child: Option<Sharable<View<L, S, M, Self>>>)
        ensures
            child == Some(Sharable::Owned(View::<L, S, M, Self>::Node(Box::new(self)))),
    ;
}

impl<L, S, M, N> FromNode<N> for Option<Sharable<View<L, S, M, N>>> {
    open spec fn of_node(value: N) -> Self {
        Some(Sharable::Owned(View::Node(Box::new(value))))
    }

    fn from(value: N) -> Self {
        Some(Sharable::Owned(View::Node(Box::new(value))))
    }
}

impl<L, S, M, N: Node> IntoViewFromNode<L, S, M> for N {
    fn into_view(self) -> Option<Sharable<View<L, S, M, N>>> {
        <Option<Sharable<View<L, S, M, N>>> as FromNode<N>>::from(self)
    }
}

} // verus!
