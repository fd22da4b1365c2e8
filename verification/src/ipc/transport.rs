//! Where the core listens.

use crate::protocol::{DEFAULT_PIPE_NAME, DEFAULT_SOCKET_PATH};
use vstd::prelude::*;

verus! {

/// Where the core listens. Never expose either variant to the network.
#[derive(Debug, PartialEq)]
pub enum Endpoint {
    Pipe(String),
    UnixSocket(String),
}

/// The model of [`Endpoint`].
#[verifier::ext_equal]
pub enum EndpointView {
    Pipe(Seq<char>),
    UnixSocket(Seq<char>),
}

impl View for Endpoint {
    type V = EndpointView;

    open spec fn view(&self) -> EndpointView {
        match self {
            Endpoint::Pipe(name) => EndpointView::Pipe(name@),
            Endpoint::UnixSocket(path) => EndpointView::UnixSocket(path@),
        }
    }
}

/// Where the core listens by default.
pub open spec fn usual(windows: bool) -> EndpointView {
    if windows {
        EndpointView::Pipe(DEFAULT_PIPE_NAME@)
    } else {
        EndpointView::UnixSocket(DEFAULT_SOCKET_PATH@)
    }
}

/// Where the core listens where a pipe or a socket may have been asked for; a pipe goes
/// before a socket.
pub open spec fn wanted(
    pipe: Option<Seq<char>>,
    socket: Option<Seq<char>>,
    windows: bool,
) -> EndpointView {
    match (pipe, socket) {
        (Some(name), _) => EndpointView::Pipe(name),
        (None, Some(path)) => EndpointView::UnixSocket(path),
        (None, None) => usual(windows),
    }
}

impl Endpoint {
    /// The name of the pipe or the path of the socket.
    pub fn describe(&self) -> (name: &str)
        ensures
            name@ == match self@ {
                EndpointView::Pipe(name) => name,
                EndpointView::UnixSocket(path) => path,
            },
    {
        match self {
            Endpoint::Pipe(name) => name.as_str(),
            Endpoint::UnixSocket(path) => path.as_str(),
        }
    }

    /// Where the core listens by default.
    pub fn default_for_platform(windows: bool) -> (endpoint: Endpoint)
        ensures
            endpoint@ == usual(windows),
    {
        if windows {
            Endpoint::Pipe(DEFAULT_PIPE_NAME.to_string())
        } else {
            Endpoint::UnixSocket(DEFAULT_SOCKET_PATH.to_string())
        }
    }

    /// Decide where to listen. `Err` says why that cannot be done on this platform.
    pub fn select(pipe: Option<String>, socket: Option<String>, windows: bool) -> (endpoint: Result<
        Endpoint,
        &'static str,
    >)
        ensures
            ({
                let wanted = wanted(
                    crate::text::optional(pipe),
                    crate::text::optional(socket),
                    windows,
                );
                match endpoint {
                    Ok(endpoint) => endpoint@ == wanted && (windows <==> wanted is Pipe),
                    Err(message) => {
                        &&& windows <==> wanted is UnixSocket
                        &&& message@ == if windows {
                            "--socket is not supported on Windows; use --pipe instead"@
                        } else {
                            "--pipe is not supported on this platform; use --socket instead"@
                        }
                    },
                }
            }),
    {
        let endpoint: Endpoint = match pipe {
            Some(name) => Endpoint::Pipe(name),
            None => match socket {
                Some(path) => Endpoint::UnixSocket(path),
                None => Endpoint::default_for_platform(windows),
            },
        };
        let is_pipe: bool = match &endpoint {
            Endpoint::Pipe(_) => true,
            Endpoint::UnixSocket(_) => false,
        };
        if windows && !is_pipe {
            Err("--socket is not supported on Windows; use --pipe instead")
        } else if !windows && is_pipe {
            Err("--pipe is not supported on this platform; use --socket instead")
        } else {
            Ok(endpoint)
        }
    }
}

// ---------------------------------------------------------------------------
// Laws
// ---------------------------------------------------------------------------

/// What is asked for is taken as it is, a pipe before a socket; without either the platform
/// decides.
pub proof fn law_wanted(pipe: Seq<char>, socket: Seq<char>, windows: bool)
    ensures
        wanted(Some(pipe), Some(socket), windows) == EndpointView::Pipe(pipe),
        wanted(Some(pipe), None, windows) == EndpointView::Pipe(pipe),
        wanted(None, Some(socket), windows) == EndpointView::UnixSocket(socket),
        wanted(None, None, windows) is Pipe <==> windows,
{
}

} // verus!
