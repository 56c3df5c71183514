//! The templates a page can be rendered with.

use vstd::prelude::*;
use crate::text::str_eq;

verus! {

/// The kind of template that renders a page.
#[derive(PartialEq, Eq, Structural, Hash, Clone, Copy, Debug)]
pub enum Template {
    CategoryList,
    ListIndex,
    Scope,
    Mask,
}

impl Template {
    /// The name under which a theme files the template.
    pub open spec fn spec_name(self) -> Seq<char> {
        match self {
            Template::CategoryList => "category_list"@,
            Template::Scope => "scope"@,
            Template::Mask => "mask"@,
            Template::ListIndex => "list_index"@,
        }
    }

    /// The name under which a theme files the template.
    pub fn name(self) -> (r: &'static str)
        ensures
            r@ == self.spec_name(),
    {
        match self {
            Template::CategoryList => "category_list",
            Template::Scope => "scope",
            Template::Mask => "mask",
            Template::ListIndex => "list_index",
        }
    }

    /// The template filed under `name`, if there is one.
    pub fn from_name(name: &str) -> (r: Option<Template>)
        ensures
            match r {
                Some(t) => t.spec_name() == name@,
                None => forall|t: Template| t.spec_name() != name@,
            },
    {
        if str_eq(name, "category_list") {
            Some(Template::CategoryList)
        } else if str_eq(name, "scope") {
            Some(Template::Scope)
        } else if str_eq(name, "mask") {
            Some(Template::Mask)
        } else if str_eq(name, "list_index") {
            Some(Template::ListIndex)
        } else {
            None
        }
    }
}

} // verus!
