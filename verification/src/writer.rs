use vstd::prelude::*;

use crate::item::Item;
use crate::xml::{item_xml, write_footer, write_header, xml_footer, xml_header};

verus! {

/// The error discipline of a writer that streams items to an output that may
/// fail, with errors of type `E`.
///
/// The writer itself never touches the output: each step returns the text
/// that is to be written next, and the caller writes it and hands back what
/// the output answered. The XML header is written when the writer is
/// created, and the XML footer when it is closed or dropped.
///
/// If a write produces an error, every later write does nothing and gives
/// back the same error, because the earlier write may have been partly done
/// and writing more would be unlikely to work properly. Closing then gives
/// back that error too, without writing the footer, and dropping the writer
/// writes nothing.
pub struct XMLWriter<E> {
    last_err: Option<E>,
}

impl<E> XMLWriter<E> {
    /// The error of the first write that failed, if one did.
    pub closed spec fn last_error(&self) -> Option<E> {
        self.last_err
    }
}

/// The error a writer keeps after a write gave `written`: the error it kept
/// before, if any, else the error of this write, if any.
pub open spec fn error_after<E>(last: Option<E>, written: Result<(), E>) -> Option<E> {
    match last {
        Some(e) => Some(e),
        None => match written {
            Ok(()) => None,
            Err(e) => Some(e),
        },
    }
}

/// The error a writer keeps after a run of writes that gave `outcomes`, one
/// after the other.
pub open spec fn error_after_all<E>(last: Option<E>, outcomes: Seq<Result<(), E>>) -> Option<E>
    decreases outcomes.len(),
{
    if outcomes.len() == 0 {
        last
    } else {
        error_after(error_after_all(last, outcomes.drop_last()), outcomes.last())
    }
}

/// Once a write has failed, the writer keeps that error whatever later writes
/// give.
pub proof fn law_error_is_sticky<E>(e: E, outcomes: Seq<Result<(), E>>)
    ensures
        error_after_all(Some(e), outcomes) == Some(e),
    decreases outcomes.len(),
{
    if outcomes.len() > 0 {
        law_error_is_sticky(e, outcomes.drop_last());
    }
}

/// A writer that has kept no error keeps the error of the first write that
/// failed.
pub proof fn law_first_error_is_kept<E>(outcomes: Seq<Result<(), E>>, k: int)
    requires
        0 <= k < outcomes.len(),
        outcomes[k] is Err,
        forall|j: int| 0 <= j < k ==> #[trigger] outcomes[j] is Ok,
    ensures
        error_after_all(None, outcomes) == Some(outcomes[k]->Err_0),
    decreases outcomes.len(),
{
    if k == outcomes.len() - 1 {
        lemma_no_error_before(outcomes.drop_last());
    } else {
        law_first_error_is_kept(outcomes.drop_last(), k);
    }
}

proof fn lemma_no_error_before<E>(outcomes: Seq<Result<(), E>>)
    requires
        forall|j: int| 0 <= j < outcomes.len() ==> #[trigger] outcomes[j] is Ok,
    ensures
        error_after_all(None, outcomes) is None,
    decreases outcomes.len(),
{
    if outcomes.len() > 0 {
        lemma_no_error_before(outcomes.drop_last());
    }
}

impl<E: Clone> XMLWriter<E> {
    /// The text to write before creating the writer: the XML declaration and
    /// the opening `<items>` tag.
    pub fn header() -> (s: String)
        ensures
            s@ == xml_header(),
    {
        let mut s = String::new();
        write_header(&mut s);
        s
    }

    /// Returns a new `XMLWriter`, given what writing the header gave.
    ///
    /// When the header could not be written, its error is returned.
    pub fn new(header_written: Result<(), E>) -> (r: Result<XMLWriter<E>, E>)
        ensures
            match header_written {
                Ok(()) => r matches Ok(w) && w.last_error() is None,
                Err(e) => r matches Err(e2) && e2 == e,
            },
    {
        match header_written {
            Ok(()) => Ok(XMLWriter { last_err: None }),
            Err(e) => Err(e),
        }
    }

    /// Decides how to write an `Item`: the text to write, or, if a previous
    /// write produced an error, a copy of that error (and nothing is to be
    /// written).
    ///
    /// The text is the item's XML fragment at indentation one.
    pub fn write_item(&self, item: &Item) -> (r: Result<String, E>)
        ensures
            match self.last_error() {
                Some(e) => r matches Err(e2) && cloned(e, e2),
                None => r matches Ok(t) && t@ == item_xml(item@, 1),
            },
    {
        match &self.last_err {
            Some(err) => Err(err.clone()),
            None => {
                let mut s = String::new();
                item.write_xml(&mut s, 1);
                Ok(s)
            },
        }
    }

    /// Takes note of what writing an item gave, and returns it.
    ///
    /// The first error is kept, and handed back by every later step; an error
    /// that comes after it changes nothing.
    pub fn record(&mut self, written: Result<(), E>) -> (r: Result<(), E>)
        ensures
            final(self).last_error() == error_after(old(self).last_error(), written),
            written is Ok ==> r is Ok,
            written matches Err(e) ==> r matches Err(e2) && cloned(e, e2),
    {
        if self.last_err.is_none() {
            match written {
                Ok(()) => Ok(()),
                Err(err) => {
                    let copy = err.clone();
                    self.last_err = Some(err);
                    Err(copy)
                },
            }
        } else {
            written
        }
    }

    /// Consumes the `XMLWriter` and decides how to finish the document: the
    /// footer to write, or, if a previous write produced an error, that error
    /// (and the footer is not to be written).
    pub fn close(self) -> (r: Result<String, E>)
        ensures
            match self.last_error() {
                Some(e) => r matches Err(e2) && e2 == e,
                None => r matches Ok(t) && t@ == xml_footer(),
            },
    {
        match self.last_err {
            Some(err) => Err(err),
            None => {
                let mut s = String::new();
                write_footer(&mut s);
                Ok(s)
            },
        }
    }

    /// The text to write when the writer is dropped without being closed: the
    /// footer, or nothing if a previous write produced an error.
    pub fn footer_on_drop(&self) -> (r: Option<String>)
        ensures
            match self.last_error() {
                Some(_) => r is None,
                None => r matches Some(t) && t@ == xml_footer(),
            },
    {
        match &self.last_err {
            Some(_) => None,
            None => {
                let mut s = String::new();
                write_footer(&mut s);
                Some(s)
            },
        }
    }
}

} // verus!
