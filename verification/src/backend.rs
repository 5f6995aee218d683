//! The effect backend: the one channel between a running program and its
//! host.

use vstd::prelude::*;
use vstd::string::*;
use crate::error::RuntimeError;
use crate::picture::Image;
use crate::value::Value;
use crate::vm::Env;

verus! {

/// The error of a backend that does not offer a service.
pub fn unsupported(what: &str) -> (err: RuntimeError)
    ensures
        err matches RuntimeError::Io(m) && m@ == what@,
{
    RuntimeError::Io(String::from_str(what))
}

/// The services a host offers to a running program.
///
/// Only printing and random numbers must be provided; a backend that leaves
/// the others out answers as a host without console input, arguments,
/// environment or files.
pub trait IoBackend {
    /// Writes text to the console.
    fn print_str(&mut self, s: &str);

    /// A random number, uniform in `[0, 1)`, as a binary64 bit pattern.
    fn rand(&mut self) -> u64;

    /// Shows a picture.
    fn show_image(&mut self, image: Image, env: &Env) -> (shown: Result<(), RuntimeError>)
        default_ensures
            shown matches Err(RuntimeError::Io(m)) && m@
                == "Showing images not supported in this environment"@,
    {
        Err(unsupported("Showing images not supported in this environment"))
    }

    /// Reads one line from the console, without its line ending; the empty
    /// string at the end of the input.
    fn scan_line(&mut self) -> (line: String)
        default_ensures
            line@ == Seq::<char>::empty(),
    {
        String::new()
    }

    /// Runs the file of the given path, once, and hands out the stack it
    /// left, bottom first.
    fn import(&mut self, name: &str, env: &Env) -> (stack: Result<Vec<Value>, RuntimeError>)
        default_ensures
            stack matches Err(RuntimeError::Io(m)) && m@
                == "Import not supported in this environment"@,
    {
        Err(unsupported("Import not supported in this environment"))
    }

    /// The value of an environment variable, if it is set.
    fn var(&mut self, name: &str) -> (value: Option<String>)
        default_ensures
            value is None,
    {
        None
    }

    /// The arguments the program was started with.
    fn args(&mut self) -> (args: Vec<String>)
        default_ensures
            args@ == Seq::<String>::empty(),
    {
        Vec::new()
    }

    /// Whether anything exists at the path.
    fn file_exists(&self, path: &str) -> (exists: bool)
        default_ensures
            !exists,
    {
        false
    }

    /// The paths of the entries of a directory.
    fn list_dir(&self, path: &str, env: &Env) -> (entries: Result<Vec<String>, RuntimeError>)
        default_ensures
            entries matches Err(RuntimeError::Io(m)) && m@
                == "File IO not supported in this environment"@,
    {
        Err(unsupported("File IO not supported in this environment"))
    }

    /// Whether the path names a file.
    fn is_file(&self, path: &str, env: &Env) -> (is_file: Result<bool, RuntimeError>)
        default_ensures
            is_file matches Err(RuntimeError::Io(m)) && m@
                == "File IO not supported in this environment"@,
    {
        Err(unsupported("File IO not supported in this environment"))
    }

    /// The bytes of a file.
    fn read_file(&mut self, path: &str, env: &Env) -> (contents: Result<Vec<u8>, RuntimeError>)
        default_ensures
            contents matches Err(RuntimeError::Io(m)) && m@
                == "File IO not supported in this environment"@,
    {
        Err(unsupported("File IO not supported in this environment"))
    }

    /// Writes a file.
    fn write_file(&mut self, path: &str, contents: Vec<u8>, env: &Env) -> (written: Result<
        (),
        RuntimeError,
    >)
        default_ensures
            written matches Err(RuntimeError::Io(m)) && m@
                == "File IO not supported in this environment"@,
    {
        Err(unsupported("File IO not supported in this environment"))
    }
}

/// A backend that is lent is a backend: each of its services is the service
/// of the backend that was lent, called with the same arguments on a borrow
/// that holds that backend as it was and gives it back as it is afterwards,
/// and answers as that call did.
impl<'a, T> IoBackend for &'a mut T where T: IoBackend {
    fn print_str(&mut self, s: &str)
        ensures
            exists|inner: &mut T|
                mut_ref_current(inner) == mut_ref_current(*old(self)) && mut_ref_future(inner)
                    == mut_ref_current(*final(self)) && #[trigger] call_ensures(
                    T::print_str,
                    (inner, s),
                    (),
                ),
    {
        (**self).print_str(s)
    }

    fn rand(&mut self) -> (number: u64)
        ensures
            exists|inner: &mut T|
                mut_ref_current(inner) == mut_ref_current(*old(self)) && mut_ref_future(inner)
                    == mut_ref_current(*final(self)) && #[trigger] call_ensures(
                    T::rand,
                    (inner,),
                    number,
                ),
    {
        (**self).rand()
    }

    fn show_image(&mut self, image: Image, env: &Env) -> (shown: Result<(), RuntimeError>)
        ensures
            exists|inner: &mut T|
                mut_ref_current(inner) == mut_ref_current(*old(self)) && mut_ref_future(inner)
                    == mut_ref_current(*final(self)) && #[trigger] call_ensures(
                    T::show_image,
                    (inner, image, env),
                    shown,
                ),
    {
        (**self).show_image(image, env)
    }

    fn scan_line(&mut self) -> (line: String)
        ensures
            exists|inner: &mut T|
                mut_ref_current(inner) == mut_ref_current(*old(self)) && mut_ref_future(inner)
                    == mut_ref_current(*final(self)) && #[trigger] call_ensures(
                    T::scan_line,
                    (inner,),
                    line,
                ),
    {
        (**self).scan_line()
    }

    fn import(&mut self, name: &str, env: &Env) -> (stack: Result<Vec<Value>, RuntimeError>)
        ensures
            exists|inner: &mut T|
                mut_ref_current(inner) == mut_ref_current(*old(self)) && mut_ref_future(inner)
                    == mut_ref_current(*final(self)) && #[trigger] call_ensures(
                    T::import,
                    (inner, name, env),
                    stack,
                ),
    {
        (**self).import(name, env)
    }

    fn var(&mut self, name: &str) -> (value: Option<String>)
        ensures
            exists|inner: &mut T|
                mut_ref_current(inner) == mut_ref_current(*old(self)) && mut_ref_future(inner)
                    == mut_ref_current(*final(self)) && #[trigger] call_ensures(
                    T::var,
                    (inner, name),
                    value,
                ),
    {
        (**self).var(name)
    }

    fn args(&mut self) -> (args: Vec<String>)
        ensures
            exists|inner: &mut T|
                mut_ref_current(inner) == mut_ref_current(*old(self)) && mut_ref_future(inner)
                    == mut_ref_current(*final(self)) && #[trigger] call_ensures(
                    T::args,
                    (inner,),
                    args,
                ),
    {
        (**self).args()
    }

    fn file_exists(&self, path: &str) -> (exists: bool)
        ensures
            call_ensures(T::file_exists, (&*old(*self), path), exists),
    {
        (**self).file_exists(path)
    }

    fn list_dir(&self, path: &str, env: &Env) -> (entries: Result<Vec<String>, RuntimeError>)
        ensures
            call_ensures(T::list_dir, (&*old(*self), path, env), entries),
    {
        (**self).list_dir(path, env)
    }

    fn is_file(&self, path: &str, env: &Env) -> (is_file: Result<bool, RuntimeError>)
        ensures
            call_ensures(T::is_file, (&*old(*self), path, env), is_file),
    {
        (**self).is_file(path, env)
    }

    fn read_file(&mut self, path: &str, env: &Env) -> (contents: Result<Vec<u8>, RuntimeError>)
        ensures
            exists|inner: &mut T|
                mut_ref_current(inner) == mut_ref_current(*old(self)) && mut_ref_future(inner)
                    == mut_ref_current(*final(self)) && #[trigger] call_ensures(
                    T::read_file,
                    (inner, path, env),
                    contents,
                ),
    {
        (**self).read_file(path, env)
    }

    fn write_file(&mut self, path: &str, contents: Vec<u8>, env: &Env) -> (written: Result<(), RuntimeError>)
        ensures
            exists|inner: &mut T|
                mut_ref_current(inner) == mut_ref_current(*old(self)) && mut_ref_future(inner)
                    == mut_ref_current(*final(self)) && #[trigger] call_ensures(
                    T::write_file,
                    (inner, path, contents, env),
                    written,
                ),
    {
        (**self).write_file(path, contents, env)
    }
}

} // verus!
