//! The error kinds the backend surfaces, each with the HTTP status it maps
//! to and a JSON failure body built with exact escaping.
use vstd::prelude::*;

verus! {

/// An error surfaced to a client, carrying its message.
#[derive(Clone, Debug, PartialEq)]
pub enum AppError {
    /// A persistence-layer failure: aborts the current scan or request.
    Database(String),
    /// An unknown file or resource.
    NotFound(String),
    /// A request the server refuses: bad media kind, missing episode.
    InvalidInput(String),
    /// A stat, open, seek or read failure.
    Io(String),
    /// A failure of the external metadata catalog.
    ExternalApi(String),
    /// An authentication failure.
    Auth(String),
    /// Any other server-side failure.
    Server(String),
}

/// What a file-metadata lookup reported when it failed.
#[derive(Clone, Copy, Debug, PartialEq, Eq, Structural)]
pub enum IoKind {
    NotFound,
    PermissionDenied,
    Other,
}

impl AppError {
    /// The HTTP status each error kind maps to.
    pub open spec fn spec_status(self) -> int {
        match self {
            AppError::Database(_) => 500,
            AppError::NotFound(_) => 404,
            AppError::InvalidInput(_) => 400,
            AppError::Io(_) => 500,
            AppError::ExternalApi(_) => 502,
            AppError::Auth(_) => 401,
            AppError::Server(_) => 500,
        }
    }

    /// The message the error carries.
    pub open spec fn spec_message(self) -> Seq<char> {
        match self {
            AppError::Database(m) => m@,
            AppError::NotFound(m) => m@,
            AppError::InvalidInput(m) => m@,
            AppError::Io(m) => m@,
            AppError::ExternalApi(m) => m@,
            AppError::Auth(m) => m@,
            AppError::Server(m) => m@,
        }
    }

    /// HTTP status of the error: 404 for a missing resource, 400 for a
    /// refused request, 401 for an authentication failure, 502 for a
    /// failing external catalog, 500 otherwise.
    pub fn status(&self) -> (s: u16)
        ensures
            s as int == self.spec_status(),
    {
        match self {
            AppError::Database(_) => 500,
            AppError::NotFound(_) => 404,
            AppError::InvalidInput(_) => 400,
            AppError::Io(_) => 500,
            AppError::ExternalApi(_) => 502,
            AppError::Auth(_) => 401,
            AppError::Server(_) => 500,
        }
    }

    /// The carried message.
    pub fn message(&self) -> (m: &str)
        ensures
            m@ == self.spec_message(),
    {
        match self {
            AppError::Database(m) => m.as_str(),
            AppError::NotFound(m) => m.as_str(),
            AppError::InvalidInput(m) => m.as_str(),
            AppError::Io(m) => m.as_str(),
            AppError::ExternalApi(m) => m.as_str(),
            AppError::Auth(m) => m.as_str(),
            AppError::Server(m) => m.as_str(),
        }
    }

    /// The JSON failure body served for this error.
    pub fn body(&self) -> (b: String)
        ensures
            b@ == error_body_spec(self.spec_message()),
    {
        error_body(self.message())
    }
}

/// The hexadecimal digit for a value below sixteen, lower case.
pub open spec fn hex_char(d: int) -> char {
    seq!['0', '1', '2', '3', '4', '5', '6', '7', '8', '9', 'a', 'b', 'c', 'd', 'e', 'f'][d]
}

/// How one character is written inside a JSON string: quotes and backslashes
/// escaped, the common control characters by letter, the rest of the control
/// range in `\u00XX` form, anything else verbatim.
pub open spec fn escaped_char(c: char) -> Seq<char> {
    if c == '"' {
        seq!['\\', '"']
    } else if c == '\\' {
        seq!['\\', '\\']
    } else if c == '\n' {
        seq!['\\', 'n']
    } else if c == '\r' {
        seq!['\\', 'r']
    } else if c == '\t' {
        seq!['\\', 't']
    } else if (c as u32) < 32 {
        seq!['\\', 'u', '0', '0', hex_char(c as int / 16), hex_char(c as int % 16)]
    } else {
        seq![c]
    }
}

/// A string written inside a JSON string, character by character.
pub open spec fn json_escaped(s: Seq<char>) -> Seq<char>
    decreases s.len(),
{
    if s.len() == 0 {
        Seq::empty()
    } else {
        json_escaped(s.drop_last()) + escaped_char(s.last())
    }
}

/// The JSON failure payload for a message:
/// `{"status":"error","message":"<escaped>"}`.
pub open spec fn error_body_spec(msg: Seq<char>) -> Seq<char> {
    "{\"status\":\"error\",\"message\":\""@ + json_escaped(msg) + "\"}"@
}

/// Append one nibble as a hexadecimal digit.
fn push_hex_nibble(out: &mut String, d: u32)
    requires
        d < 16,
    ensures
        final(out)@ == old(out)@ + seq![hex_char(d as int)],
{
    match d {
        0 => {
            proof {
                reveal_strlit("0");
            }
            out.append("0");
        },
        1 => {
            proof {
                reveal_strlit("1");
            }
            out.append("1");
        },
        2 => {
            proof {
                reveal_strlit("2");
            }
            out.append("2");
        },
        3 => {
            proof {
                reveal_strlit("3");
            }
            out.append("3");
        },
        4 => {
            proof {
                reveal_strlit("4");
            }
            out.append("4");
        },
        5 => {
            proof {
                reveal_strlit("5");
            }
            out.append("5");
        },
        6 => {
            proof {
                reveal_strlit("6");
            }
            out.append("6");
        },
        7 => {
            proof {
                reveal_strlit("7");
            }
            out.append("7");
        },
        8 => {
            proof {
                reveal_strlit("8");
            }
            out.append("8");
        },
        9 => {
            proof {
                reveal_strlit("9");
            }
            out.append("9");
        },
        10 => {
            proof {
                reveal_strlit("a");
            }
            out.append("a");
        },
        11 => {
            proof {
                reveal_strlit("b");
            }
            out.append("b");
        },
        12 => {
            proof {
                reveal_strlit("c");
            }
            out.append("c");
        },
        13 => {
            proof {
                reveal_strlit("d");
            }
            out.append("d");
        },
        14 => {
            proof {
                reveal_strlit("e");
            }
            out.append("e");
        },
        _ => {
            proof {
                reveal_strlit("f");
            }
            out.append("f");
        },
    }
}

/// Append the character at position `i` of `s` in its JSON-escaped form.
fn push_escaped_char(out: &mut String, s: &str, i: usize)
    requires
        i < s@.len(),
    ensures
        final(out)@ == old(out)@ + escaped_char(s@[i as int]),
{
    let c = s.get_char(i);
    if c == '"' {
        proof {
            reveal_strlit("\\\"");
        }
        out.append("\\\"");
        proof {
            assert("\\\""@ =~= seq!['\\', '"']);
        }
    } else if c == '\\' {
        proof {
            reveal_strlit("\\\\");
        }
        out.append("\\\\");
        proof {
            assert("\\\\"@ =~= seq!['\\', '\\']);
        }
    } else if c == '\n' {
        proof {
            reveal_strlit("\\n");
        }
        out.append("\\n");
        proof {
            assert("\\n"@ =~= seq!['\\', 'n']);
        }
    } else if c == '\r' {
        proof {
            reveal_strlit("\\r");
        }
        out.append("\\r");
        proof {
            assert("\\r"@ =~= seq!['\\', 'r']);
        }
    } else if c == '\t' {
        proof {
            reveal_strlit("\\t");
        }
        out.append("\\t");
        proof {
            assert("\\t"@ =~= seq!['\\', 't']);
        }
    } else if (c as u32) < 32 {
        proof {
            reveal_strlit("\\u00");
        }
        let ghost mid = out@;
        out.append("\\u00");
        push_hex_nibble(out, c as u32 / 16);
        push_hex_nibble(out, c as u32 % 16);
        proof {
            assert(final(out)@ =~= mid + escaped_char(c));
        }
    } else {
        // An unescaped character is copied over as a one-character slice.
        let n = s.unicode_len();
        assert(i < n);
        out.append(s.substring_char(i, i + 1));
        proof {
            assert(s@.subrange(i as int, i + 1) =~= seq![c]);
        }
    }
}

/// Append a message in its JSON-escaped form.
fn json_escape_into(out: &mut String, s: &str)
    ensures
        final(out)@ == old(out)@ + json_escaped(s@),
{
    let n = s.unicode_len();
    let mut i: usize = 0;
    proof {
        assert(s@.subrange(0, 0) =~= Seq::<char>::empty());
        assert(old(out)@ + json_escaped(s@.subrange(0, 0)) =~= old(out)@);
    }
    while i < n
        invariant
            0 <= i <= n,
            n == s@.len(),
            out@ == old(out)@ + json_escaped(s@.subrange(0, i as int)),
        decreases n - i,
    {
        push_escaped_char(out, s, i);
        proof {
            assert(s@.subrange(0, i + 1).drop_last() =~= s@.subrange(0, i as int));
            assert(s@.subrange(0, i + 1).last() == s@[i as int]);
            assert(old(out)@ + json_escaped(s@.subrange(0, i + 1)) =~= (old(out)@ + json_escaped(
                s@.subrange(0, i as int),
            )) + escaped_char(s@[i as int]));
        }
        i += 1;
    }
    proof {
        assert(s@.subrange(0, n as int) =~= s@);
    }
}

/// The JSON failure body served for a message.
pub fn error_body(message: &str) -> (b: String)
    ensures
        b@ == error_body_spec(message@),
{
    let mut out = String::from_str("{\"status\":\"error\",\"message\":\"");
    json_escape_into(&mut out, message);
    out.append("\"}");
    proof {
        assert(out@ =~= error_body_spec(message@));
    }
    out
}

/// The message a failed file-metadata lookup surfaces: missing files and
/// permission failures get a message naming the path, anything else keeps
/// the underlying report.
pub fn stat_failure(kind: IoKind, path: &str, raw_message: String) -> (e: AppError)
    ensures
        e matches AppError::Io(_),
        kind == IoKind::NotFound ==> e.spec_message() == "File not found: "@ + path@,
        kind == IoKind::PermissionDenied ==> e.spec_message() == "Access is denied to file: "@
            + path@,
        kind == IoKind::Other ==> e.spec_message() == raw_message@,
{
    match kind {
        IoKind::NotFound => {
            let mut m = String::from_str("File not found: ");
            m.append(path);
            AppError::Io(m)
        },
        IoKind::PermissionDenied => {
            let mut m = String::from_str("Access is denied to file: ");
            m.append(path);
            AppError::Io(m)
        },
        IoKind::Other => AppError::Io(raw_message),
    }
}

} // verus!
