//! Command-line choices of the program: the graphics renderer and the
//! headless web mode's port.

use vstd::prelude::*;
use crate::num::{parse_digits, parse_unsigned, unsigned_body};
use crate::text::{ascii_lower, ascii_lower_vec, chars_of, eq_lit, strings, trim, trim_vec};

verus! {

/// The graphics back end of the desktop window.
#[derive(Clone, Copy, PartialEq, Eq, Debug, Structural)]
pub enum Renderer {
    /// wgpu (Vulkan and friends): the default.
    Wgpu,
    /// glow (OpenGL).
    Glow,
}

/// The renderer a name asks for, trimmed and ASCII-lowercased: `glow`,
/// `opengl` and `gl` ask for OpenGL; anything else, or no name, gets the
/// default.
pub open spec fn renderer_of(requested: Option<Seq<char>>) -> Renderer {
    match requested {
        Some(n) => {
            let k = ascii_lower(trim(n));
            if k == "glow"@ || k == "opengl"@ || k == "gl"@ {
                Renderer::Glow
            } else {
                Renderer::Wgpu
            }
        },
        None => Renderer::Wgpu,
    }
}

/// Whether a requested name is one the program knows (`wgpu`, `vulkan`,
/// `vk` or an OpenGL name); others earn a warning.
pub open spec fn renderer_known(requested: Seq<char>) -> bool {
    let k = ascii_lower(trim(requested));
    k == "glow"@ || k == "opengl"@ || k == "gl"@ || k == "wgpu"@ || k == "vulkan"@ || k == "vk"@
}

/// The renderer for a requested name, and whether the name was unknown
/// (the caller then warns that wgpu is used).
pub fn renderer_from_name(requested: Option<&str>) -> (r: (Renderer, bool))
    ensures
        r.0 == renderer_of(match requested {
            Some(s) => Some(s@),
            None => None,
        }),
        r.1 == match requested {
            Some(s) => !renderer_known(s@),
            None => false,
        },
{
    match requested {
        None => (Renderer::Wgpu, false),
        Some(s) => {
            let k = ascii_lower_vec(&trim_vec(&chars_of(s)));
            if eq_lit(&k, "glow") || eq_lit(&k, "opengl") || eq_lit(&k, "gl") {
                (Renderer::Glow, false)
            } else if eq_lit(&k, "wgpu") || eq_lit(&k, "vulkan") || eq_lit(&k, "vk") {
                (Renderer::Wgpu, false)
            } else {
                (Renderer::Wgpu, true)
            }
        },
    }
}

/// The index of the first argument equal to `flag`.
pub open spec fn flag_pos(args: Seq<Seq<char>>, flag: Seq<char>) -> Option<int>
    decreases args.len(),
{
    if args.len() == 0 {
        None
    } else if args[0] == flag {
        Some(0)
    } else {
        match flag_pos(args.drop_first(), flag) {
            Some(i) => Some(i + 1),
            None => None,
        }
    }
}

/// The argument after the first `flag`, if there is one.
pub open spec fn flag_value(args: Seq<Seq<char>>, flag: Seq<char>) -> Option<Seq<char>> {
    match flag_pos(args, flag) {
        Some(i) => if i + 1 < args.len() {
            Some(args[i + 1])
        } else {
            None
        },
        None => None,
    }
}

/// Position of the first argument equal to `flag`.
pub fn find_flag(args: &Vec<String>, flag: &str) -> (r: Option<usize>)
    ensures
        match r {
            Some(i) => i < args@.len() && flag_pos(strings(args@), flag@) == Some(i as int),
            None => flag_pos(strings(args@), flag@) is None,
        },
{
    let f = chars_of(flag);
    let mut i: usize = 0;
    let ghost s = strings(args@);
    assert(s.skip(0) =~= s);
    while i < args.len()
        invariant
            i <= args@.len(),
            s == strings(args@),
            f@ == flag@,
            flag_pos(s, flag@) == match flag_pos(s.skip(i as int), flag@) {
                Some(k) => Some(k + i),
                None => None,
            },
        decreases args.len() - i,
    {
        assert(s.skip(i as int).drop_first() =~= s.skip(i + 1));
        if crate::text::eq_vec(&chars_of(args[i].as_str()), &f) {
            return Some(i);
        }
        i += 1;
    }
    None
}

/// The renderer of a launch: the value after `--renderer` when given,
/// else the `YT_OFFLINE_RENDERER` environment value `env`; and whether
/// the name used was unknown.
pub fn renderer_from_args(args: &Vec<String>, env: Option<&str>) -> (r: (Renderer, bool))
    ensures
        ({
            let req = match flag_value(strings(args@), "--renderer"@) {
                Some(v) => Some(v),
                None => match env {
                    Some(e) => Some(e@),
                    None => None,
                },
            };
            &&& r.0 == renderer_of(req)
            &&& r.1 == match req {
                Some(n) => !renderer_known(n),
                None => false,
            }
        }),
{
    let n = args.len();
    match find_flag(args, "--renderer") {
        Some(pos) if pos < n - 1 => renderer_from_name(Some(args[pos + 1].as_str())),
        _ => renderer_from_name(env),
    }
}

/// `s.parse::<u16>()`.
pub open spec fn parse_u16(s: Seq<char>) -> Option<u16> {
    match parse_unsigned(s, u16::MAX as nat) {
        Some(v) => Some(v as u16),
        None => None,
    }
}

/// The web mode of a launch: `None` without `--web`; with it, the port
/// after it when that parses as a port, else `configured`.
pub fn web_mode_port(args: &Vec<String>, configured: u16) -> (r: Option<u16>)
    ensures
        r == match flag_pos(strings(args@), "--web"@) {
            None => None,
            Some(i) => Some(
                if i + 1 < args@.len() {
                    match parse_u16(strings(args@)[i + 1]) {
                        Some(p) => p,
                        None => configured,
                    }
                } else {
                    configured
                },
            ),
        },
{
    let pos = match find_flag(args, "--web") {
        Some(p) => p,
        None => return None,
    };
    let n = args.len();
    if pos < n - 1 {
        let v = chars_of(args[pos + 1].as_str());
        let from: usize = if v.len() > 0 && v[0] == '+' {
            1
        } else {
            0
        };
        assert(unsigned_body(v@) =~= v@.skip(from as int));
        match parse_digits(&v, from, 65535u64) {
            Some(p) => Some(p as u16),
            None => Some(configured),
        }
    } else {
        Some(configured)
    }
}

} // verus!
