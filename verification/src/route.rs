//! Which model a command-line request goes to.
use vstd::prelude::*;
use vstd::string::*;

use crate::text::{copy_text, lower, same_text, to_lower, trim, trimmed};

verus! {

/// The model that a request goes to.
#[derive(Debug)]
pub struct CliAutoRoute {
    pub model: String,
    pub reasoning_effort: Option<String>,
    /// Whether the model was picked for the request.
    pub auto_model: bool,
}

/// A model that was picked for a request.
#[derive(Debug)]
pub struct RouteSelection {
    pub model: String,
    pub reasoning_effort: Option<String>,
}

/// The model is to be picked for the request.
pub open spec fn is_auto(model: Seq<char>) -> bool {
    lower(trimmed(model)) == "auto"@
}

/// Whether the model is to be picked for the request.
pub fn wants_auto_route(model: &str) -> (r: bool)
    ensures
        r == is_auto(model@),
{
    same_text(to_lower(trim(model).as_str()).as_str(), "auto")
}

impl CliAutoRoute {
    /// The route to the model that the request names.
    pub fn fixed(model: &str) -> (r: Self)
        ensures
            r.model@ == model@,
            r.reasoning_effort is None,
            !r.auto_model,
    {
        CliAutoRoute { model: copy_text(model), reasoning_effort: None, auto_model: false }
    }

    /// The route to the model that was picked.
    pub fn picked(selection: RouteSelection) -> (r: Self)
        ensures
            r.model == selection.model,
            r.reasoning_effort == selection.reasoning_effort,
            r.auto_model,
    {
        CliAutoRoute {
            model: selection.model,
            reasoning_effort: selection.reasoning_effort,
            auto_model: true,
        }
    }
}

/// The route of a request that names `model`; `selection` is what was picked, where the
/// model is to be picked.
pub fn resolve_cli_auto_route(model: &str, selection: Option<RouteSelection>) -> (r: CliAutoRoute)
    requires
        is_auto(model@) ==> selection is Some,
    ensures
        if is_auto(model@) {
            &&& r.model == selection->Some_0.model
            &&& r.reasoning_effort == selection->Some_0.reasoning_effort
            &&& r.auto_model
        } else {
            &&& r.model@ == model@
            &&& r.reasoning_effort is None
            &&& !r.auto_model
        },
{
    if wants_auto_route(model) {
        if let Some(selection) = selection {
            return CliAutoRoute::picked(selection);
        }
    }
    CliAutoRoute::fixed(model)
}

} // verus!
