use vstd::prelude::*;

verus! {

/// The kind of a mount: its backend type, followed by its `options.version`
/// when it has one.
pub fn mount_kind(mount_type: &str, version: Option<&str>) -> (r: String)
    ensures
        r@ == match version {
            Some(v) => mount_type@ + v@,
            None => mount_type@,
        },
{
    let mut r = mount_type.to_owned();
    match version {
        Some(v) => r.append(v),
        None => {},
    }
    r
}

} // verus!
