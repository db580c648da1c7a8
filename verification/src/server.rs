use vstd::prelude::*;

use crate::protocol::{ProtocolError, WindowSize};

verus! {

/// Environment variable that holds the session id inside a session's shell.
pub const ENV_SESSION: &'static str = "SSH_OBI_SESSION";

/// Environment variable that holds the daemon socket path inside a session's shell.
pub const ENV_SOCKET: &'static str = "SSH_OBI_SOCKET";

/// Errors of the server's control commands.
#[derive(Debug)]
pub enum ServerError {
    MissingEnvironment(&'static str),
    Connect(std::io::Error),
    Protocol(ProtocolError),
    UnsupportedPlatform(&'static str),
}

impl From<ProtocolError> for ServerError {
    fn from(value: ProtocolError) -> (r: ServerError)
        ensures
            r == ServerError::Protocol(value),
    {
        ServerError::Protocol(value)
    }
}

impl vstd::std_specs::convert::FromSpecImpl<ProtocolError> for ServerError {
    open spec fn obeys_from_spec() -> bool {
        true
    }

    open spec fn from_spec(v: ProtocolError) -> ServerError {
        ServerError::Protocol(v)
    }
}

/// `--rows` and `--cols` were not given together.
#[derive(Debug, Clone, Copy, PartialEq, Eq, Structural)]
pub struct IncompleteWindowSize;

/// The window size that the daemon's options ask for: none when no size
/// option is given; otherwise `--rows` and `--cols` are both needed, and a
/// pixel size that is not given is 0.
pub fn initial_window_size(
    rows: Option<u16>,
    cols: Option<u16>,
    pixel_width: Option<u16>,
    pixel_height: Option<u16>,
) -> (r: Result<Option<WindowSize>, IncompleteWindowSize>)
    ensures
        rows is None && cols is None && pixel_width is None && pixel_height is None ==> r == Ok::<
            Option<WindowSize>,
            IncompleteWindowSize,
        >(None),
        rows is Some && cols is Some ==> r == Ok::<Option<WindowSize>, IncompleteWindowSize>(
            Some(
                WindowSize {
                    rows: rows->0,
                    cols: cols->0,
                    pixel_width: match pixel_width {
                        Some(w) => w,
                        None => 0,
                    },
                    pixel_height: match pixel_height {
                        Some(h) => h,
                        None => 0,
                    },
                },
            ),
        ),
        !(rows is Some && cols is Some) && !(rows is None && cols is None && pixel_width is None
            && pixel_height is None) ==> r == Err::<Option<WindowSize>, IncompleteWindowSize>(
            IncompleteWindowSize,
        ),
{
    match (rows, cols) {
        (Some(r), Some(c)) => {
            let w = match pixel_width {
                Some(w) => w,
                None => 0,
            };
            let h = match pixel_height {
                Some(h) => h,
                None => 0,
            };
            Ok(Some(WindowSize { rows: r, cols: c, pixel_width: w, pixel_height: h }))
        },
        (None, None) => {
            if pixel_width.is_none() && pixel_height.is_none() {
                Ok(None)
            } else {
                Err(IncompleteWindowSize)
            }
        },
        _ => Err(IncompleteWindowSize),
    }
}

} // verus!
