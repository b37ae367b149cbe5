//! Document transforms.

use vstd::prelude::*;
use core::marker::PhantomData;
use crate::vdom::node::Document;

verus! {

/// A transformation of a document `D` into a document of another phase.
pub trait Transform<D>: Sized {
    /// The document that comes out.
    type To;

    /// Whether the transform can take `doc`.
    spec fn accepts(&self, doc: D) -> bool;

    /// Whether `r` is what the transform makes of `doc`.
    spec fn produces(&self, doc: D, r: Self::To) -> bool;

    /// Applies the transform.
    fn transform(self, doc: D) -> (r: Self::To)
        requires
            self.accepts(doc),
        ensures
            self.produces(doc, r),
    ;
}

/// The transform that hands back what it is given, for any phase `P`.
pub struct IdentityTransform<P> {
    phase: PhantomData<P>,
}

impl<P> IdentityTransform<P> {
    /// The identity transform.
    pub fn new() -> (r: IdentityTransform<P>) {
        IdentityTransform { phase: PhantomData }
    }
}

impl<P> Transform<P> for IdentityTransform<P> {
    type To = P;

    /// Any document.
    open spec fn accepts(&self, doc: P) -> bool {
        true
    }

    /// The document comes back unchanged.
    open spec fn produces(&self, doc: P, r: P) -> bool {
        r == doc
    }

    fn transform(self, doc: P) -> (r: P) {
        doc
    }
}

/// A document going through transformations.
pub struct Pipeline<D> {
    doc: D,
}

impl<D> Pipeline<D> {
    /// A pipeline holding a document.
    pub fn new(doc: D) -> (r: Pipeline<D>)
        ensures
            r.doc() == doc,
    {
        Pipeline { doc }
    }

    /// The document held.
    pub closed spec fn doc(&self) -> D {
        self.doc
    }

    /// The document, by reference.
    pub fn doc_ref(&self) -> (r: &D)
        ensures
            *r == self.doc(),
    {
        &self.doc
    }

    /// The document, for changing it in place.
    pub fn doc_mut(&mut self) -> (r: &mut D)
        ensures
            *r == old(self).doc(),
            final(self).doc() == *final(r),
    {
        &mut self.doc
    }

    /// Applies a transform to the document held.
    pub fn then<T: Transform<D>>(self, transform: T) -> (r: Pipeline<T::To>)
        requires
            transform.accepts(self.doc()),
        ensures
            transform.produces(self.doc(), r.doc()),
    {
        Pipeline { doc: transform.transform(self.doc) }
    }

    /// The document at the end of the pipeline.
    pub fn finish(self) -> (r: D)
        ensures
            r == self.doc(),
    {
        self.doc
    }
}

impl<E, X, F, D> Document<E, X, F, D> {
    /// Sends the document through a transform.
    pub fn pipe<T: Transform<Document<E, X, F, D>>>(self, transform: T) -> (r: T::To)
        requires
            transform.accepts(self),
        ensures
            transform.produces(self, r),
    {
        transform.transform(self)
    }

    /// A pipeline that starts with this document.
    pub fn into_pipeline(self) -> (r: Pipeline<Document<E, X, F, D>>)
        ensures
            r.doc() == self,
    {
        Pipeline::new(self)
    }
}

} // verus!
