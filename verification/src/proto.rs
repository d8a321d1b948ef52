//! The parsed prototype record: one immutable entry per accepted input line,
//! consumed read-only by both emitters.

use vstd::prelude::*;

use crate::text::{has_char, lower_char};

verus! {

/// One parsed function prototype.
///
/// `parameters` keeps the raw declarations in declaration order (the
/// no-argument marker `void` included); `parameter_names` keeps the bare
/// identifier of every non-marker declaration, in the same order.
pub struct ParsedPrototype {
    /// The textual C return type, with a trailing `*` when the prototype
    /// returns a pointer.
    pub return_type: String,
    /// The call's name as written in the input, prefix included.
    pub native_name: String,
    /// The derived identifier: the native name with its two-character prefix
    /// stripped and the next character lower-cased.
    pub wrapper_name: String,
    /// The raw parameter declarations, trimmed, in declaration order.
    pub parameters: Vec<String>,
    /// The bare parameter names, in the order of the non-marker declarations.
    pub parameter_names: Vec<String>,
}

/// The mathematical value of a `ParsedPrototype`.
pub ghost struct Prototype {
    pub return_type: Seq<char>,
    pub native_name: Seq<char>,
    pub wrapper_name: Seq<char>,
    pub parameters: Seq<Seq<char>>,
    pub parameter_names: Seq<Seq<char>>,
}

impl View for ParsedPrototype {
    type V = Prototype;

    open spec fn view(&self) -> Prototype {
        Prototype {
            return_type: self.return_type@,
            native_name: self.native_name@,
            wrapper_name: self.wrapper_name@,
            parameters: self.parameters.deep_view(),
            parameter_names: self.parameter_names.deep_view(),
        }
    }
}

/// The number of entries in `params` that are not the no-argument marker.
pub open spec fn count_non_marker(params: Seq<Seq<char>>) -> int
    decreases params.len(),
{
    if params.len() == 0 {
        0
    } else {
        (if params[0] == "void"@ {
            0int
        } else {
            1int
        }) + count_non_marker(params.skip(1))
    }
}

/// The invariant of a well-formed prototype record: the wrapper name is the
/// native name without its two-character prefix, with the next character
/// lower-cased (so it is never empty); there is exactly one bare name per
/// non-marker parameter; and no bare name holds a blank or a pointer sigil.
pub open spec fn wf_prototype(p: Prototype) -> bool {
    &&& p.native_name.len() >= 3
    &&& p.wrapper_name == seq![lower_char(p.native_name[2])] + p.native_name.skip(3)
    &&& p.wrapper_name.len() >= 1
    &&& p.parameter_names.len() == count_non_marker(p.parameters)
    &&& forall|k: int|
        0 <= k < p.parameter_names.len() ==> !has_char(#[trigger] p.parameter_names[k], ' ')
            && !has_char(p.parameter_names[k], '*')
}

/// The views of a sequence of prototype records.
pub open spec fn protos_view(ps: Seq<ParsedPrototype>) -> Seq<Prototype> {
    ps.map_values(|p: ParsedPrototype| p@)
}

} // verus!
