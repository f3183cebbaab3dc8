use vstd::prelude::*;
use vstd::string::*;

verus! {

/// The name under which SDL lists its OpenGL render driver.
pub open spec fn gl_driver_name() -> Seq<char> {
    "opengl"@
}

/// The index (as SDL numbers render drivers) of the first driver named
/// `opengl` among `names`, in the order SDL lists them.
pub fn find_sdl_gl_driver(names: &Vec<String>) -> (r: Option<u32>)
    ensures
        r is None <==> forall|j: int| 0 <= j < names@.len() ==> names@[j]@ != gl_driver_name(),
        r matches Some(i) ==> exists|k: int|
            0 <= k < names@.len() && i == k as u32 && names@[k]@ == gl_driver_name() && forall|j: int|
                0 <= j < k ==> names@[j]@ != gl_driver_name(),
{
    let target = String::from_str("opengl");
    let mut index: usize = 0;
    while index < names.len()
        invariant
            index <= names@.len(),
            target@ == gl_driver_name(),
            forall|j: int| 0 <= j < index ==> names@[j]@ != gl_driver_name(),
        decreases names@.len() - index,
    {
        if names[index] == target {
            return Some(index as u32);
        }
        index = index + 1;
    }
    None
}

} // verus!
