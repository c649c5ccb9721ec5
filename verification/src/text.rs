//! String comparison and the fixed names the sink works with.

use vstd::prelude::*;

verus! {

/// Name of the boolean field by which a span or an event opts into tracing.
pub const CAPTURE_FIELD: &'static str = "ftf";

/// Name of the string field that carries a category label.
pub const CATEGORY_FIELD: &'static str = "category";

/// Category of a captured span or event that names none and inherits none.
pub const DEFAULT_CATEGORY: &'static str = "trace";

/// Provider name used when the configuration gives none.
pub const DEFAULT_PROVIDER_NAME: &'static str = "trace";

/// Provider id used when the configuration gives none.
pub const DEFAULT_PROVIDER_ID: u32 = 1;

/// UTF-8 encodes distinct character sequences to distinct byte sequences.
proof fn lemma_utf8_distinguishes(a: Seq<char>, b: Seq<char>)
    ensures
        (vstd::utf8::encode_utf8(a) == vstd::utf8::encode_utf8(b)) <==> a == b,
{
    vstd::utf8::encode_utf8_decode_utf8(a);
    vstd::utf8::encode_utf8_decode_utf8(b);
}

/// Whether two string slices hold the same characters.
pub fn str_eq(a: &str, b: &str) -> (same: bool)
    ensures
        same == (a@ == b@),
{
    let x = a.as_bytes();
    let y = b.as_bytes();
    proof {
        lemma_utf8_distinguishes(a@, b@);
    }
    if x.len() != y.len() {
        return false;
    }
    let mut i: usize = 0;
    let mut same = true;
    while same && i < x.len()
        invariant
            i <= x.len(),
            x.len() == y.len(),
            same ==> forall|j: int| 0 <= j < i ==> x@[j] == y@[j],
            !same ==> x@ != y@,
        decreases x.len() - i,
    {
        if x[i] != y[i] {
            same = false;
        }
        i += 1;
    }
    assert(same ==> x@ =~= y@);
    same
}

/// The characters of an optional label.
pub open spec fn label_view(label: Option<String>) -> Option<Seq<char>> {
    match label {
        Some(text) => Some(text@),
        None => None,
    }
}

} // verus!
