use vstd::prelude::*;

verus! {

/// Number of rows and columns of a terminal window.
#[derive(Debug, Clone, Copy, PartialEq, Eq, Structural)]
pub struct Size {
    /// Number of rows: the window height.
    pub rows: u16,
    /// Number of columns: the window width.
    pub cols: u16,
}

impl Size {
    /// A present size has both dimensions positive.
    pub open spec fn wf(&self) -> bool {
        self.rows > 0 && self.cols > 0
    }
}

/// What a geometry query yields: absence unless the output stream is a
/// terminal and the driver answered with status zero and a size whose
/// dimensions are both positive.
pub open spec fn probe_result(is_terminal: bool, status: i32, rows: u16, cols: u16) -> Option<Size> {
    if is_terminal && status == 0 && rows > 0 && cols > 0 {
        Some(Size { rows, cols })
    } else {
        None
    }
}

/// Turns the outcome of a window-size query into an optional size.
///
/// `is_terminal` tells whether the output stream is an interactive terminal;
/// `status` is what the driver query returned (zero on success), and `rows`,
/// `cols` are the dimensions it reported.
pub fn size_from_query(is_terminal: bool, status: i32, rows: u16, cols: u16) -> (r: Option<Size>)
    ensures
        r == probe_result(is_terminal, status, rows, cols),
        r matches Some(s) ==> s.wf(),
{
    if is_terminal && status == 0 && rows > 0 && cols > 0 {
        Some(Size { rows, cols })
    } else {
        None
    }
}

} // verus!
