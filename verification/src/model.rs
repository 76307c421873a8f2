//! The trigger point document as typed values, and the mathematical view of
//! each type that the contracts of this crate are stated over.

use vstd::prelude::*;

verus! {

/// A criterion on a SIP header: the header's name and the content it carries.
#[derive(Clone, Debug)]
pub struct SipHeader {
    pub header: String,
    pub content: String,
}

/// What a [`SipHeader`] says, as sequences of characters.
pub struct SipHeaderView {
    pub header: Seq<char>,
    pub content: Seq<char>,
}

impl View for SipHeader {
    type V = SipHeaderView;

    open spec fn view(&self) -> SipHeaderView {
        SipHeaderView { header: self.header@, content: self.content@ }
    }
}

/// One leaf condition of a trigger point.
///
/// Every descriptive attribute is optional and several may be present at
/// once, in which case the condition is their conjunction.
#[derive(Clone, Debug)]
pub struct SPT {
    /// Negation marker; the condition is negated when it is present and 1.
    pub condition_negated: Option<u8>,
    /// Number of the group that the condition belongs to.
    pub group: u8,
    pub method: Option<String>,
    /// An empty extension counts as absent.
    pub extension: Option<String>,
    /// Session case code: 0 to 3 have a name, other codes are shown as numbers.
    pub session_case: Option<u8>,
    pub request_uri: Option<String>,
    pub sip_header: Option<SipHeader>,
}

/// What an [`SPT`] says: its group, whether it is negated, and its attributes.
pub struct SptView {
    pub group: u8,
    pub negated: bool,
    pub method: Option<Seq<char>>,
    pub extension: Option<Seq<char>>,
    pub session_case: Option<u8>,
    pub request_uri: Option<Seq<char>>,
    pub sip_header: Option<SipHeaderView>,
}

/// The view of an optional string.
pub open spec fn text_of(s: Option<String>) -> Option<Seq<char>> {
    match s {
        Some(t) => Some(t@),
        None => None,
    }
}

impl View for SPT {
    type V = SptView;

    open spec fn view(&self) -> SptView {
        SptView {
            group: self.group,
            negated: self.condition_negated == Some(1u8),
            method: text_of(self.method),
            extension: text_of(self.extension),
            session_case: self.session_case,
            request_uri: text_of(self.request_uri),
            sip_header: match self.sip_header {
                Some(h) => Some(h@),
                None => None,
            },
        }
    }
}

impl SPT {
    /// Whether the condition is negated: the marker is present and equals 1.
    pub fn is_negated(&self) -> (negated: bool)
        ensures
            negated == self@.negated,
    {
        match self.condition_negated {
            Some(marker) => marker == 1,
            None => false,
        }
    }
}

/// A trigger point: the conditions in document order and the two markers of
/// the normal form.
#[derive(Clone, Debug)]
pub struct TriggerPoint {
    /// Marker of the conjunctive normal form. Its presence alone selects the
    /// form, whatever its value.
    pub condition_type_cnf: Option<u8>,
    /// Marker of the disjunctive normal form. It is carried but not consulted.
    pub condition_type_dnf: Option<u8>,
    pub spts: Vec<SPT>,
}

/// What a [`TriggerPoint`] says: the normal form and the conditions in
/// document order.
pub struct TriggerPointView {
    /// True for the conjunctive normal form, an AND of OR-groups; false for
    /// the disjunctive one, an OR of AND-groups.
    pub is_cnf: bool,
    pub conditions: Seq<SptView>,
}

/// The views of a sequence of conditions, in the same order.
pub open spec fn views_of(spts: Seq<SPT>) -> Seq<SptView> {
    Seq::new(spts.len(), |i: int| spts[i]@)
}

impl View for TriggerPoint {
    type V = TriggerPointView;

    open spec fn view(&self) -> TriggerPointView {
        TriggerPointView {
            is_cnf: self.condition_type_cnf is Some,
            conditions: views_of(self.spts@),
        }
    }
}

impl TriggerPoint {
    /// Whether the document is in conjunctive normal form. This is the one
    /// place where the form is chosen: the marker's presence decides.
    pub fn is_cnf(&self) -> (cnf: bool)
        ensures
            cnf == self@.is_cnf,
    {
        self.condition_type_cnf.is_some()
    }
}

} // verus!
