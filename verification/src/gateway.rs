//! The gateway state: one interpreter handle and the latest captured result.
//!
//! A `Maths` value owns the path of the interpreter executable and the
//! result text captured from the most recent invocation's output.  The
//! embedding program holds the one `Maths` instance behind an exclusive
//! lock, spawns the executable per call, and hands the captured standard
//! output back to [`Maths::record_output`]; what the executable's output
//! means is decided here, in verified code.
//!
//! The stored result is the raw text after the `result=` marker; turning
//! it into a number is the caller's step, since a marker line that does
//! not parse is a broken interpreter contract the caller must surface.

use vstd::prelude::*;

use crate::output::{extract_result, spec_extract};
use crate::provision::{build_return_executable, exe_path_spec};

verus! {

/// The interpreter handle together with the latest captured result.
pub struct Maths {
    /// The path of the interpreter executable driven by this gateway.
    pub executable: String,
    /// The text after the marker on the first marker line of the latest
    /// recorded output; nothing when that output carried no marker line.
    result: Option<String>,
}

impl Maths {
    /// The executable path as a sequence of characters, for contracts.
    pub closed spec fn exe_view(&self) -> Seq<char> {
        self.executable@
    }

    /// The captured result as a sequence of characters, for contracts.
    pub closed spec fn result_view(&self) -> Option<Seq<char>> {
        match self.result {
            Some(ref s) => Some(s@),
            None => None,
        }
    }

    /// Creates the gateway handle.  A caller-supplied override path is
    /// adopted as it stands and provisioning has nothing to do; without
    /// one the handle points at the fixed path that provisioning fills.
    /// No result is captured yet.
    pub fn new(override_executable: Option<String>) -> (m: Maths)
        ensures
            m.result_view() is None,
            match override_executable {
                Some(path) => m.exe_view() == path@,
                None => m.exe_view() == exe_path_spec(),
            },
    {
        match override_executable {
            Some(executable) => Maths { executable, result: None },
            None => Maths { executable: build_return_executable(), result: None },
        }
    }

    /// Records what one invocation of the interpreter printed: the captured
    /// result becomes the remainder of the first `result=` line of `stdout`,
    /// or nothing when no line starts with the marker.  The new result fully
    /// overwrites any prior one; the executable path never changes.
    pub fn record_output(&mut self, stdout: &str)
        ensures
            final(self).exe_view() == old(self).exe_view(),
            final(self).result_view() == spec_extract(stdout@),
    {
        self.result = extract_result(stdout);
    }

    /// Returns the result captured from the latest recorded output, or
    /// nothing when that output carried no marker line.
    pub fn get_result(&self) -> (r: Option<String>)
        ensures
            r matches Some(v) ==> self.result_view() == Some(v@),
            r is None ==> self.result_view() is None,
    {
        match &self.result {
            Some(s) => Some(s.clone()),
            None => None,
        }
    }
}

} // verus!
