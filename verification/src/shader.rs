use vstd::prelude::*;
use vstd::string::*;

verus! {

/// A renderer that loads its shader program from a directory (given by its
/// path) and draws objects of type `T`, given per-draw data of type `D`.
pub trait ShaderLoader<T, D> where Self: Sized {
    fn upload(&mut self, object: &mut T, payload: D);

    fn new(shader: &str) -> Self;
}

/// The file names of the fragment and vertex stages of the shader stored in
/// directory `name`: `name.frag` and `name.vert`.
pub fn shader_file_names(name: &str) -> (r: (String, String))
    ensures
        r.0@ == name@ + ".frag"@,
        r.1@ == name@ + ".vert"@,
{
    let base = String::from_str(name);
    let mut frag_path = base.clone();
    frag_path.append(".frag");
    let mut vert_path = base.clone();
    vert_path.append(".vert");
    (frag_path, vert_path)
}

} // verus!
