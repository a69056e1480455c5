//! Single instance: the wire format a second launch uses to hand its request
//! to the running one, and where the rendezvous lives.

use vstd::prelude::*;

use crate::text::{chars_of, dec, is_text, lemma_dec_injective, push_decimal, push_str, string_of, trim, trim_chars};

verus! {

/// What a second launch asks the running instance to do.
#[derive(Clone, Copy, PartialEq, Eq, Structural, Debug)]
pub enum Request {
    /// Plain `shotr`: bring the existing window forward.
    Show,
    /// `shotr --capture`, i.e. the desktop shortcut.
    Capture,
    /// Preferences changed a binding.
    ReloadHotkeys,
}

pub open spec fn wire_spec(r: Request) -> Seq<char> {
    match r {
        Request::Show => "show"@,
        Request::Capture => "capture"@,
        Request::ReloadHotkeys => "reload-hotkeys"@,
    }
}

/// A message on the wire, surrounding whitespace ignored.
pub open spec fn parse_spec(s: Seq<char>) -> Option<Request> {
    let t = trim(s);
    if t == "show"@ {
        Some(Request::Show)
    } else if t == "capture"@ {
        Some(Request::Capture)
    } else if t == "reload-hotkeys"@ {
        Some(Request::ReloadHotkeys)
    } else {
        None
    }
}

impl Request {
    pub fn wire(self) -> (r: &'static str)
        ensures
            r@ == wire_spec(self),
    {
        match self {
            Request::Show => "show",
            Request::Capture => "capture",
            Request::ReloadHotkeys => "reload-hotkeys",
        }
    }

    pub fn parse(s: &str) -> (r: Option<Request>)
        ensures
            r == parse_spec(s@),
    {
        let cs = chars_of(s);
        let t = trim_chars(cs.as_slice());
        if is_text(t.as_slice(), "show") {
            Some(Request::Show)
        } else if is_text(t.as_slice(), "capture") {
            Some(Request::Capture)
        } else if is_text(t.as_slice(), "reload-hotkeys") {
            Some(Request::ReloadHotkeys)
        } else {
            None
        }
    }
}

/// Every request reads back as itself.
pub proof fn law_wire_round_trip(r: Request)
    ensures
        parse_spec(wire_spec(r)) == Some(r),
{
    reveal_strlit("show");
    reveal_strlit("capture");
    reveal_strlit("reload-hotkeys");
    crate::text::lemma_trim_plain(wire_spec(r));
    assert("capture"@ != "show"@) by {
        assert("capture"@.len() != "show"@.len());
    }
    assert("reload-hotkeys"@ != "show"@) by {
        assert("reload-hotkeys"@.len() != "show"@.len());
    }
    assert("reload-hotkeys"@ != "capture"@) by {
        assert("reload-hotkeys"@.len() != "capture"@.len());
    }
}

/// The socket a user's instances meet at: `shotr.sock` inside the runtime
/// directory when there is one, otherwise a per-uid name under `/tmp`.
pub open spec fn socket_path_spec(runtime_dir: Option<Seq<char>>, uid: u32) -> Seq<char> {
    match runtime_dir {
        Some(dir) if dir.len() > 0 => if dir.last() == '/' {
            dir + "shotr.sock"@
        } else {
            dir.push('/') + "shotr.sock"@
        },
        _ => "/tmp/shotr-"@ + dec(uid as nat) + ".sock"@,
    }
}

pub open spec fn opt_str(o: Option<&str>) -> Option<Seq<char>> {
    match o {
        Some(s) => Some(s@),
        None => None,
    }
}

/// Where the socket lives, given `XDG_RUNTIME_DIR` (if set) and the uid.
/// An empty directory is as good as none.
pub fn socket_path_in(runtime_dir: Option<&str>, uid: u32) -> (r: String)
    ensures
        r@ == socket_path_spec(opt_str(runtime_dir), uid),
{
    let mut v: Vec<char> = Vec::new();
    match runtime_dir {
        Some(dir) => {
            let d = chars_of(dir);
            if d.len() > 0 {
                crate::text::push_all(&mut v, d.as_slice());
                if d[d.len() - 1] != '/' {
                    v.push('/');
                }
                push_str(&mut v, "shotr.sock");
                return string_of(v.as_slice());
            }
        },
        None => {},
    }
    push_str(&mut v, "/tmp/shotr-");
    push_decimal(&mut v, uid as u64);
    push_str(&mut v, ".sock");
    string_of(v.as_slice())
}

/// Two users never share a fallback socket.
pub proof fn law_fallback_sockets_differ(a: u32, b: u32)
    ensures
        a != b ==> socket_path_spec(None, a) != socket_path_spec(None, b),
{
    if socket_path_spec(None, a) == socket_path_spec(None, b) {
        let p = "/tmp/shotr-"@;
        let q = ".sock"@;
        let x = p + dec(a as nat) + q;
        let y = p + dec(b as nat) + q;
        assert(x.len() == y.len());
        assert(dec(a as nat) =~= x.subrange(p.len() as int, x.len() - q.len()));
        assert(dec(b as nat) =~= y.subrange(p.len() as int, y.len() - q.len()));
        lemma_dec_injective(a as nat, b as nat);
    }
}

/// The named pipe for a user; named pipes share one machine-wide namespace,
/// so the user's name is part of it.
pub open spec fn pipe_name_spec(user: Option<Seq<char>>) -> Seq<char> {
    match user {
        Some(u) if u.len() > 0 => "\\\\.\\pipe\\shotr-"@ + u,
        _ => "\\\\.\\pipe\\shotr"@,
    }
}

pub fn pipe_name(user: Option<&str>) -> (r: String)
    ensures
        r@ == pipe_name_spec(opt_str(user)),
{
    let mut v: Vec<char> = Vec::new();
    match user {
        Some(u) => {
            let cs = chars_of(u);
            if cs.len() > 0 {
                push_str(&mut v, "\\\\.\\pipe\\shotr-");
                crate::text::push_all(&mut v, cs.as_slice());
                return string_of(v.as_slice());
            }
        },
        None => {},
    }
    push_str(&mut v, "\\\\.\\pipe\\shotr");
    string_of(v.as_slice())
}

/// Different users never share a pipe.
pub proof fn law_pipes_differ(a: Seq<char>, b: Seq<char>)
    requires
        a.len() > 0,
        b.len() > 0,
    ensures
        a != b ==> pipe_name_spec(Some(a)) != pipe_name_spec(Some(b)),
{
    let p = "\\\\.\\pipe\\shotr-"@;
    if pipe_name_spec(Some(a)) == pipe_name_spec(Some(b)) {
        assert(a =~= (p + a).skip(p.len() as int));
        assert(b =~= (p + b).skip(p.len() as int));
    }
}

} // verus!
