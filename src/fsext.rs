//! Options of a recursive directory copy.
use vstd::prelude::*;

verus! {

/// How a directory tree is copied.
#[derive(Debug, Clone, Copy, PartialEq, Eq, Structural)]
pub struct CopyOptions {
    /// Descend into directories reached through symbolic links.
    pub follow_symlink: bool,
    /// Remove the target before copying.
    pub erase: bool,
    /// Replace files that exist at the target.
    pub overwrite: bool,
    /// Copy the source directory itself into the target, not only its contents.
    pub copy_inside: bool,
}

impl CopyOptions {
    /// Follows symbolic links; erases, overwrites and nests nothing.
    pub fn new() -> (r: Self)
        ensures
            r == (CopyOptions { follow_symlink: true, erase: false, overwrite: false, copy_inside: false }),
    {
        CopyOptions { follow_symlink: true, erase: false, overwrite: false, copy_inside: false }
    }

    pub fn follow_symlink(self, value: bool) -> (r: Self)
        ensures
            r == (CopyOptions { follow_symlink: value, ..self }),
    {
        CopyOptions { follow_symlink: value, ..self }
    }

    pub fn erase(self, value: bool) -> (r: Self)
        ensures
            r == (CopyOptions { erase: value, ..self }),
    {
        CopyOptions { erase: value, ..self }
    }

    pub fn overwrite(self, value: bool) -> (r: Self)
        ensures
            r == (CopyOptions { overwrite: value, ..self }),
    {
        CopyOptions { overwrite: value, ..self }
    }

    pub fn copy_inside(self, value: bool) -> (r: Self)
        ensures
            r == (CopyOptions { copy_inside: value, ..self }),
    {
        CopyOptions { copy_inside: value, ..self }
    }
}

impl Default for CopyOptions {
    fn default() -> (r: Self)
        ensures
            r == (CopyOptions { follow_symlink: true, erase: false, overwrite: false, copy_inside: false }),
    {
        CopyOptions::new()
    }
}

} // verus!
