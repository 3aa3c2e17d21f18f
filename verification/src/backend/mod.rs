//! The outside readers behind the library: one file per reader, each holding the
//! names of what that reader returns and the functions that call it.

pub mod codec;
pub mod sevenz;
pub mod tarball;
pub mod zipfile;
