//! Domain pieces shared by the nested package objects, and the small request
//! values of the read operations.

use vstd::prelude::*;

use crate::types::{Language, NodeType};

verus! {

/// A language-tagged string, used uniformly for descriptions, changelogs and
/// readmes.
#[derive(Debug, PartialEq)]
pub struct Localized {
    pub language: Language,
    pub text: String,
}

/// Mathematical form of [`Localized`].
#[verifier::ext_equal]
pub struct LocalizedModel {
    pub language: Language,
    pub text: Seq<char>,
}

impl DeepView for Localized {
    type V = LocalizedModel;

    open spec fn deep_view(&self) -> LocalizedModel {
        LocalizedModel { language: self.language, text: self.text@ }
    }
}

impl Clone for Localized {
    fn clone(&self) -> (r: Self)
        ensures
            r == *self,
    {
        Localized { language: self.language, text: self.text.clone() }
    }
}

/// An entry of a version's file tree, as shown in the assembled object.
#[derive(Debug, PartialEq)]
pub struct ContentNode {
    pub node_type: NodeType,
    pub path: String,
}

/// Mathematical form of [`ContentNode`].
#[verifier::ext_equal]
pub struct ContentNodeModel {
    pub node_type: NodeType,
    pub path: Seq<char>,
}

impl DeepView for ContentNode {
    type V = ContentNodeModel;

    open spec fn deep_view(&self) -> ContentNodeModel {
        ContentNodeModel { node_type: self.node_type, path: self.path@ }
    }
}

impl Clone for ContentNode {
    fn clone(&self) -> (r: Self)
        ensures
            r == *self,
    {
        ContentNode { node_type: self.node_type, path: self.path.clone() }
    }
}

/// A pagination request as it comes from the caller, before clamping.
#[derive(Debug, PartialEq, Eq, Structural, Clone, Copy)]
pub struct PaginationRq {
    pub page: u32,
    pub limit: u32,
}

impl PaginationRq {
    /// Clamps the request: the page to at least 1, the page size to at least
    /// 1 and to at most the configured ceiling.
    pub fn validate(self, page_limit: u32) -> (r: PaginationRq)
        ensures
            r.page == if self.page < 1 { 1u32 } else { self.page },
            r.limit == ({
                let capped = if self.limit < page_limit { self.limit } else { page_limit };
                if capped < 1 { 1u32 } else { capped }
            }),
    {
        let page: u32 = if self.page < 1 { 1 } else { self.page };
        let capped: u32 = if self.limit < page_limit { self.limit } else { page_limit };
        let limit: u32 = if capped < 1 { 1 } else { capped };
        PaginationRq { page, limit }
    }
}

/// A package-name path parameter.
#[derive(Debug, PartialEq)]
pub struct Name {
    pub name: String,
}

} // verus!
