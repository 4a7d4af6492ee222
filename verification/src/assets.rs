//! Static assets that the service serves alongside its pages.

use vstd::prelude::*;

verus! {

/// A JavaScript file, served with status 200.
#[derive(Debug, Clone, Copy)]
pub struct JsResponse(pub &'static str);

/// A stylesheet, served with status 200.
#[derive(Debug, Clone, Copy)]
pub struct CssResponse(pub &'static str);

} // verus!
