use vstd::prelude::*;

verus! {

/// Request methods, the top-level key of a route table.
#[derive(Clone, Copy, Debug, PartialEq, Eq, Structural, PartialOrd, Ord, Hash)]
pub enum Method {
    Get,
    Head,
    Post,
    Put,
    Delete,
    Connect,
    Options,
    Trace,
    Patch,
}

/// Protocol version written at the start of a status line.
#[derive(Clone, Copy, Debug, PartialEq, Eq, Structural)]
pub enum Version {
    Http10,
    Http11,
}

pub open spec fn version_text(v: Version) -> &'static str {
    match v {
        Version::Http10 => "HTTP/1.0",
        Version::Http11 => "HTTP/1.1",
    }
}

impl Version {
    /// The text of this version as it appears on the wire.
    pub fn as_str(&self) -> (r: &'static str)
        ensures
            r == version_text(*self),
    {
        match self {
            Version::Http10 => "HTTP/1.0",
            Version::Http11 => "HTTP/1.1",
        }
    }
}

/// A numeric response status.
#[derive(Clone, Copy, Debug, PartialEq, Eq, Structural)]
pub struct StatusCode(pub u16);

/// The reason phrase sent after a status code; empty for codes without one.
pub open spec fn reason_phrase(code: u16) -> &'static str {
    if code == 200 {
        "OK"
    } else if code == 201 {
        "Created"
    } else if code == 204 {
        "No Content"
    } else if code == 301 {
        "Moved Permanently"
    } else if code == 302 {
        "Found"
    } else if code == 304 {
        "Not Modified"
    } else if code == 400 {
        "Bad Request"
    } else if code == 401 {
        "Unauthorized"
    } else if code == 403 {
        "Forbidden"
    } else if code == 404 {
        "Not Found"
    } else if code == 405 {
        "Method Not Allowed"
    } else if code == 500 {
        "Internal Server Error"
    } else if code == 501 {
        "Not Implemented"
    } else if code == 503 {
        "Service Unavailable"
    } else {
        ""
    }
}

impl StatusCode {
    /// The reason phrase of this status.
    pub fn phrase(&self) -> (r: &'static str)
        ensures
            r == reason_phrase(self.0),
    {
        let c = self.0;
        if c == 200 {
            "OK"
        } else if c == 201 {
            "Created"
        } else if c == 204 {
            "No Content"
        } else if c == 301 {
            "Moved Permanently"
        } else if c == 302 {
            "Found"
        } else if c == 304 {
            "Not Modified"
        } else if c == 400 {
            "Bad Request"
        } else if c == 401 {
            "Unauthorized"
        } else if c == 403 {
            "Forbidden"
        } else if c == 404 {
            "Not Found"
        } else if c == 405 {
            "Method Not Allowed"
        } else if c == 500 {
            "Internal Server Error"
        } else if c == 501 {
            "Not Implemented"
        } else if c == 503 {
            "Service Unavailable"
        } else {
            ""
        }
    }
}

/// What follows the header block of a response.
#[derive(Debug)]
pub enum Body {
    /// No body at all.
    Absent,
    /// A body of length zero.
    Empty,
    /// An owned byte sequence.
    Bytes(Vec<u8>),
}

/// The mathematical content of a [`Body`].
pub ghost enum BodyView {
    Absent,
    Empty,
    Bytes(Seq<u8>),
}

impl View for Body {
    type V = BodyView;

    open spec fn view(&self) -> BodyView {
        match self {
            Body::Absent => BodyView::Absent,
            Body::Empty => BodyView::Empty,
            Body::Bytes(b) => BodyView::Bytes(b@),
        }
    }
}

} // verus!
