//! The decisions and text formats of the built-in web server: media URLs,
//! subtitle conversion, cookie jars, bind addresses, login lockout,
//! sessions and password checks. The HTTP plumbing lives with the rest of
//! the server; every value it serves or acts on comes from here.

use vstd::prelude::*;
use vstd::string::StringSliceAdditionalSpecFns;
use crate::paths::{components, part_view, path_components, path_strip_prefix, strip_prefix, PathPart};
use crate::text::{
    ascii_lower, ascii_lower_vec, begins, chars_of, contains, ends_with, eq_lit, extend, extend_str,
    finishes, first_piece, first_piece_vec, includes, join, join_vec, lines, lines_vec, push_arg,
    push_string, replace, replace_vec, split_char, split_char_vec, starts_with, string_of, strings,
    strip_prefix_vec, trim, trim_start, trim_vec, views, words, words_vec,
};
use crate::num::{dec, push_dec};

verus! {

// ── Percent-encoding ─────────────────────────────────────────────────────────

/// An uppercase hexadecimal digit.
pub open spec fn hex_digit_upper(d: int) -> char {
    if d < 10 {
        (48 + d) as char
    } else {
        (55 + d) as char
    }
}

/// A byte allowed unescaped in a URL path segment (RFC 3986 unreserved).
pub open spec fn unreserved(b: u8) -> bool {
    (65 <= b <= 90) || (97 <= b <= 122) || (48 <= b <= 57) || b == 45 || b == 95 || b == 46 || b
        == 126
}

/// The encoding of one byte: itself when unreserved, `%XX` otherwise.
pub open spec fn pct_byte(b: u8) -> Seq<char> {
    if unreserved(b) {
        seq![b as char]
    } else {
        seq!['%', hex_digit_upper(b as int / 16), hex_digit_upper(b as int % 16)]
    }
}

/// The percent-encoding of a byte string.
pub open spec fn pct_encode(bytes: Seq<u8>) -> Seq<char>
    decreases bytes.len(),
{
    if bytes.len() == 0 {
        seq![]
    } else {
        pct_encode(bytes.drop_last()) + pct_byte(bytes.last())
    }
}

fn hex_upper_exec(d: u8) -> (c: char)
    requires
        d < 16,
    ensures
        c == hex_digit_upper(d as int),
{
    if d < 10 {
        (48 + d) as char
    } else {
        (55 + d) as char
    }
}

/// Percent-encode one path segment over its UTF-8 bytes, keeping only the
/// unreserved characters `A-Z a-z 0-9 - _ . ~`.
pub fn percent_encode_segment(s: &str) -> (r: String)
    ensures
        r@ == pct_encode(s.spec_bytes()),
{
    let bytes = s.as_bytes();
    let mut out: Vec<char> = Vec::new();
    let mut i: usize = 0;
    while i < bytes.len()
        invariant
            i <= bytes@.len(),
            bytes@ == s.spec_bytes(),
            out@ == pct_encode(bytes@.take(i as int)),
        decreases bytes.len() - i,
    {
        assert(bytes@.take(i + 1).drop_last() =~= bytes@.take(i as int));
        let b = bytes[i];
        let ghost before = out@;
        if (65 <= b && b <= 90) || (97 <= b && b <= 122) || (48 <= b && b <= 57) || b == 45 || b
            == 95 || b == 46 || b == 126 {
            out.push(b as char);
        } else {
            out.push('%');
            out.push(hex_upper_exec(b / 16));
            out.push(hex_upper_exec(b % 16));
        }
        assert(out@ =~= before + pct_byte(b));
        i += 1;
    }
    assert(bytes@.take(i as int) =~= bytes@);
    string_of(&out)
}

/// A character that can stand in a URL path segment without ending it.
pub open spec fn segment_char(c: char) -> bool {
    let u = c as u32;
    (65 <= u <= 90) || (97 <= u <= 122) || (48 <= u <= 57) || c == '-' || c == '_' || c == '.'
        || c == '~' || c == '%'
}

/// Law: a percent-encoded segment holds only unreserved characters,
/// percent signs and hex digits — in particular no `/`, `?` or `#`.
pub proof fn lemma_pct_encode_safe(bytes: Seq<u8>)
    ensures
        forall|i: int|
            0 <= i < pct_encode(bytes).len() ==> segment_char(#[trigger] pct_encode(bytes)[i]),
    decreases bytes.len(),
{
    if bytes.len() > 0 {
        lemma_pct_encode_safe(bytes.drop_last());
        let a = pct_encode(bytes.drop_last());
        let b = pct_byte(bytes.last());
        let x = bytes.last();
        assert(x as int / 16 < 16 && x as int % 16 < 16);
        assert(forall|i: int| 0 <= i < b.len() ==> segment_char(#[trigger] b[i]));
        assert forall|i: int| 0 <= i < pct_encode(bytes).len() implies segment_char(
            #[trigger] pct_encode(bytes)[i],
        ) by {
            if i < a.len() {
                assert(pct_encode(bytes)[i] == a[i]);
            } else {
                assert(pct_encode(bytes)[i] == b[i - a.len()]);
            }
        }
    }
}

/// The normal components of `p`, in order.
pub open spec fn normal_parts(parts: Seq<Option<Seq<char>>>) -> Seq<Seq<char>>
    decreases parts.len(),
{
    if parts.len() == 0 {
        seq![]
    } else {
        normal_parts(parts.drop_last()) + match parts.last() {
            Some(n) => seq![n],
            None => seq![],
        }
    }
}

/// The UTF-8 bytes of a character sequence (as `str::as_bytes` has them).
pub open spec fn utf8_bytes(s: Seq<char>) -> Seq<u8> {
    vstd::utf8::encode_utf8(s)
}

/// The `/files/...` URL of `full` under `library_root`: its normal
/// components, each percent-encoded, joined with `/`; `None` outside the
/// root or with no component.
pub open spec fn file_url_spec(library_root: Seq<char>, full: Seq<char>) -> Option<Seq<char>> {
    match path_strip_prefix(full, library_root) {
        None => None,
        Some(rel) => {
            let parts = normal_parts(path_components(rel));
            if parts.len() == 0 {
                None
            } else {
                Some(
                    "/files/"@ + join(
                        parts.map_values(|p: Seq<char>| pct_encode(utf8_bytes(p))),
                        "/"@,
                    ),
                )
            }
        },
    }
}

/// Build a `/files/<rel>` URL from an absolute path under the library
/// root, percent-encoding each segment.
pub fn file_url(library_root: &str, full: &str) -> (r: Option<String>)
    ensures
        match r {
            Some(u) => file_url_spec(library_root@, full@) == Some(u@),
            None => file_url_spec(library_root@, full@) is None,
        },
{
    let rel = match strip_prefix(full, library_root) {
        Some(r) => r,
        None => return None,
    };
    let comps = components(rel.as_str());
    let ghost cv = comps@.map_values(|c: PathPart| part_view(c));
    assert(cv == path_components(rel@));
    let mut parts: Vec<Vec<char>> = Vec::new();
    let ghost mut names: Seq<Seq<char>> = seq![];
    let mut i: usize = 0;
    while i < comps.len()
        invariant
            i <= comps@.len(),
            cv == comps@.map_values(|c: PathPart| part_view(c)),
            names == normal_parts(cv.take(i as int)),
            views(parts@) == names.map_values(|p: Seq<char>| pct_encode(utf8_bytes(p))),
        decreases comps.len() - i,
    {
        assert(cv.take(i + 1).drop_last() =~= cv.take(i as int));
        match &comps[i] {
            PathPart::Normal(n) => {
                let e = percent_encode_segment(n.as_str());
                let ghost before = views(parts@);
                parts.push(chars_of(e.as_str()));
                proof {
                    names = names.push(n@);
                    assert(views(parts@) =~= before.push(e@));
                    assert(views(parts@) =~= names.map_values(
                        |p: Seq<char>| pct_encode(utf8_bytes(p)),
                    ));
                }
            },
            PathPart::Other => {},
        }
        i += 1;
    }
    assert(cv.take(i as int) =~= cv);
    if parts.len() == 0 {
        return None;
    }
    let mut out: Vec<char> = Vec::new();
    extend_str(&mut out, "/files/");
    extend(&mut out, &join_vec(&parts, "/"));
    Some(string_of(&out))
}

// ── Subtitle language labels ─────────────────────────────────────────────────

/// The English name of a base language code.
pub open spec fn language_name(base: Seq<char>) -> Option<Seq<char>> {
    if base == "en"@ {
        Some("English"@)
    } else if base == "es"@ {
        Some("Spanish"@)
    } else if base == "fr"@ {
        Some("French"@)
    } else if base == "de"@ {
        Some("German"@)
    } else if base == "ja"@ {
        Some("Japanese"@)
    } else if base == "ko"@ {
        Some("Korean"@)
    } else if base == "zh"@ {
        Some("Chinese"@)
    } else if base == "pt"@ {
        Some("Portuguese"@)
    } else if base == "ru"@ {
        Some("Russian"@)
    } else if base == "it"@ {
        Some("Italian"@)
    } else if base == "ar"@ {
        Some("Arabic"@)
    } else if base == "hi"@ {
        Some("Hindi"@)
    } else if base == "nl"@ {
        Some("Dutch"@)
    } else if base == "pl"@ {
        Some("Polish"@)
    } else if base == "tr"@ {
        Some("Turkish"@)
    } else if base == "sv"@ {
        Some("Swedish"@)
    } else if base == "id"@ {
        Some("Indonesian"@)
    } else if base == "vi"@ {
        Some("Vietnamese"@)
    } else if base == "th"@ {
        Some("Thai"@)
    } else {
        None
    }
}

/// The label of a subtitle language code: the language's name (marked
/// "(auto)" for original-language or auto-generated tracks), or the code
/// itself when the base language is unknown.
pub open spec fn lang_label_spec(code: Seq<char>) -> Seq<char> {
    match language_name(first_piece(code, "-"@)) {
        None => code,
        Some(name) => if ends_with(code, "-orig"@) || contains(code, "auto"@) {
            name + " (auto)"@
        } else {
            name
        },
    }
}

fn language_name_exec(base: &Vec<char>) -> (r: Option<&'static str>)
    ensures
        match r {
            Some(n) => language_name(base@) == Some(n@),
            None => language_name(base@) is None,
        },
{
    if eq_lit(base, "en") {
        Some("English")
    } else if eq_lit(base, "es") {
        Some("Spanish")
    } else if eq_lit(base, "fr") {
        Some("French")
    } else if eq_lit(base, "de") {
        Some("German")
    } else if eq_lit(base, "ja") {
        Some("Japanese")
    } else if eq_lit(base, "ko") {
        Some("Korean")
    } else if eq_lit(base, "zh") {
        Some("Chinese")
    } else if eq_lit(base, "pt") {
        Some("Portuguese")
    } else if eq_lit(base, "ru") {
        Some("Russian")
    } else if eq_lit(base, "it") {
        Some("Italian")
    } else if eq_lit(base, "ar") {
        Some("Arabic")
    } else if eq_lit(base, "hi") {
        Some("Hindi")
    } else if eq_lit(base, "nl") {
        Some("Dutch")
    } else if eq_lit(base, "pl") {
        Some("Polish")
    } else if eq_lit(base, "tr") {
        Some("Turkish")
    } else if eq_lit(base, "sv") {
        Some("Swedish")
    } else if eq_lit(base, "id") {
        Some("Indonesian")
    } else if eq_lit(base, "vi") {
        Some("Vietnamese")
    } else if eq_lit(base, "th") {
        Some("Thai")
    } else {
        None
    }
}

/// Human-readable label of a subtitle language code.
pub fn lang_label(code: &str) -> (r: String)
    ensures
        r@ == lang_label_spec(code@),
{
    let c = chars_of(code);
    let base = first_piece_vec(&c, "-");
    match language_name_exec(&base) {
        None => String::from_str(code),
        Some(name) => {
            if finishes(&c, "-orig") || includes(&c, "auto") {
                let mut out: Vec<char> = Vec::new();
                extend_str(&mut out, name);
                extend_str(&mut out, " (auto)");
                string_of(&out)
            } else {
                String::from_str(name)
            }
        },
    }
}

// ── Bind addresses ───────────────────────────────────────────────────────────

/// One choice of address for the web server to listen on.
#[derive(Clone, Debug)]
pub struct BindOption {
    pub id: String,
    pub label: String,
    pub address: String,
}

/// The bind-mode id of a stored bind address.
pub open spec fn bind_mode_spec(addr: Seq<char>) -> Seq<char> {
    if addr == "127.0.0.1"@ || addr == "localhost"@ {
        "localhost"@
    } else if addr == "0.0.0.0"@ {
        "all"@
    } else if starts_with(addr, "100."@) {
        "tailscale"@
    } else {
        "lan"@
    }
}

/// Infer the bind-mode id (`localhost`/`tailscale`/`lan`/`all`) from a
/// stored bind address.
pub fn bind_mode_of(addr: &str) -> (r: &'static str)
    ensures
        r@ == bind_mode_spec(addr@),
{
    let a = chars_of(addr);
    if eq_lit(&a, "127.0.0.1") || eq_lit(&a, "localhost") {
        "localhost"
    } else if eq_lit(&a, "0.0.0.0") {
        "all"
    } else if begins(&a, "100.") {
        "tailscale"
    } else {
        "lan"
    }
}

/// The first word of `words` satisfying `pred`.
pub open spec fn first_word(ws: Seq<Seq<char>>, tailscale: bool) -> Option<Seq<char>>
    decreases ws.len(),
{
    if ws.len() == 0 {
        None
    } else if (tailscale && starts_with(ws[0], "100."@)) || (!tailscale && !starts_with(
        ws[0],
        "127."@,
    ) && !starts_with(ws[0], "100."@)) {
        Some(ws[0])
    } else {
        first_word(ws.drop_first(), tailscale)
    }
}

/// The first address in `hostname -I` output that is a Tailscale address
/// (`100.x`) when `tailscale`, or else a LAN address (neither loopback
/// `127.x` nor Tailscale).
pub fn pick_ip(hostname_output: &str, tailscale: bool) -> (r: Option<String>)
    ensures
        match r {
            Some(ip) => first_word(words(hostname_output@), tailscale) == Some(ip@),
            None => first_word(words(hostname_output@), tailscale) is None,
        },
{
    let v = chars_of(hostname_output);
    let ws = words_vec(&v);
    let ghost all = views(ws@);
    let mut i: usize = 0;
    assert(all.skip(0) =~= all);
    while i < ws.len()
        invariant
            i <= ws@.len(),
            all == views(ws@),
            all == words(hostname_output@),
            first_word(all, tailscale) == first_word(all.skip(i as int), tailscale),
        decreases ws.len() - i,
    {
        let w = &ws[i];
        assert(all.skip(i as int)[0] == w@);
        assert(all.skip(i as int).drop_first() =~= all.skip(i + 1));
        let hit = if tailscale {
            begins(w, "100.")
        } else {
            !begins(w, "127.") && !begins(w, "100.")
        };
        if hit {
            return Some(string_of(w));
        }
        i += 1;
    }
    None
}

/// `<host>:<port>`.
pub open spec fn host_port(host: Seq<char>, port: u16) -> Seq<char> {
    host + ":"@ + dec(port as nat)
}

fn host_port_exec(host: &str, port: u16) -> (r: String)
    ensures
        r@ == host_port(host@, port),
{
    let mut out: Vec<char> = Vec::new();
    extend_str(&mut out, host);
    extend_str(&mut out, ":");
    push_dec(&mut out, port as u64);
    string_of(&out)
}

fn bind_option(id: &str, label: String, address: String) -> (r: BindOption)
    ensures
        r.id@ == id@,
        r.label@ == label@,
        r.address@ == address@,
{
    BindOption { id: String::from_str(id), label, address }
}

/// `prefix + ip + ")"`.
fn labelled(prefix: &str, ip: &str) -> (r: String)
    ensures
        r@ == prefix@ + ip@ + ")"@,
{
    let mut out: Vec<char> = Vec::new();
    extend_str(&mut out, prefix);
    extend_str(&mut out, ip);
    extend_str(&mut out, ")");
    string_of(&out)
}

/// The bind choices offered in the settings: localhost, the Tailscale and
/// LAN addresses when detected (the LAN one unless it is `127.0.0.1`), and
/// all interfaces.
pub open spec fn binds_spec(port: u16, tailscale_ip: Option<Seq<char>>, lan_ip: Option<Seq<char>>) -> Seq<
    (Seq<char>, Seq<char>, Seq<char>),
> {
    seq![("localhost"@, "Localhost only"@, host_port("127.0.0.1"@, port))] + match tailscale_ip {
        Some(ip) => seq![("tailscale"@, "Tailscale ("@ + ip + ")"@, host_port(ip, port))],
        None => seq![],
    } + match lan_ip {
        Some(ip) => if ip != "127.0.0.1"@ {
            seq![("lan"@, "LAN ("@ + ip + ")"@, host_port(ip, port))]
        } else {
            seq![]
        },
        None => seq![],
    } + seq![("all"@, "All interfaces (0.0.0.0)"@, host_port("0.0.0.0"@, port))]
}

/// The view of a bind option.
pub open spec fn bind_view(b: BindOption) -> (Seq<char>, Seq<char>, Seq<char>) {
    (b.id@, b.label@, b.address@)
}

/// The bind choices for `port`, given the detected Tailscale and LAN
/// addresses.
pub fn get_available_binds(port: u16, tailscale_ip: Option<&str>, lan_ip: Option<&str>) -> (r: Vec<
    BindOption,
>)
    ensures
        r@.map_values(|b: BindOption| bind_view(b)) == binds_spec(
            port,
            match tailscale_ip {
                Some(ip) => Some(ip@),
                None => None,
            },
            match lan_ip {
                Some(ip) => Some(ip@),
                None => None,
            },
        ),
{
    let mut opts: Vec<BindOption> = Vec::new();
    opts.push(
        bind_option(
            "localhost",
            String::from_str("Localhost only"),
            host_port_exec("127.0.0.1", port),
        ),
    );
    if let Some(ip) = tailscale_ip {
        opts.push(bind_option("tailscale", labelled("Tailscale (", ip), host_port_exec(ip, port)));
    }
    if let Some(ip) = lan_ip {
        let iv = chars_of(ip);
        if !eq_lit(&iv, "127.0.0.1") {
            opts.push(bind_option("lan", labelled("LAN (", ip), host_port_exec(ip, port)));
        }
    }
    opts.push(
        bind_option(
            "all",
            String::from_str("All interfaces (0.0.0.0)"),
            host_port_exec("0.0.0.0", port),
        ),
    );
    assert(opts@.map_values(|b: BindOption| bind_view(b)) =~= binds_spec(
        port,
        match tailscale_ip {
            Some(ip) => Some(ip@),
            None => None,
        },
        match lan_ip {
            Some(ip) => Some(ip@),
            None => None,
        },
    ));
    opts
}

/// The address a bind mode listens on: the detected Tailscale or LAN
/// address (loopback when not detected), all interfaces, or loopback.
pub fn resolve_bind_mode(mode: &str, tailscale_ip: Option<&str>, lan_ip: Option<&str>) -> (r: String)
    ensures
        r@ == if mode@ == "tailscale"@ {
            match tailscale_ip {
                Some(ip) => ip@,
                None => "127.0.0.1"@,
            }
        } else if mode@ == "lan"@ {
            match lan_ip {
                Some(ip) => ip@,
                None => "127.0.0.1"@,
            }
        } else if mode@ == "all"@ {
            "0.0.0.0"@
        } else {
            "127.0.0.1"@
        },
{
    let m = chars_of(mode);
    if eq_lit(&m, "tailscale") {
        match tailscale_ip {
            Some(ip) => String::from_str(ip),
            None => String::from_str("127.0.0.1"),
        }
    } else if eq_lit(&m, "lan") {
        match lan_ip {
            Some(ip) => String::from_str(ip),
            None => String::from_str("127.0.0.1"),
        }
    } else if eq_lit(&m, "all") {
        String::from_str("0.0.0.0")
    } else {
        String::from_str("127.0.0.1")
    }
}

// ── Subtitles and cookies ────────────────────────────────────────────────────

/// The VTT form of one SRT line: commas become dots on timing lines.
pub open spec fn vtt_line(l: Seq<char>) -> Seq<char> {
    if contains(l, "-->"@) {
        replace(l, ","@, "."@)
    } else {
        l
    }
}

/// Each line converted and followed by a newline.
pub open spec fn vtt_body(ls: Seq<Seq<char>>) -> Seq<char>
    decreases ls.len(),
{
    if ls.len() == 0 {
        seq![]
    } else {
        vtt_body(ls.drop_last()) + vtt_line(ls.last()) + "\n"@
    }
}

/// Convert SubRip (SRT) subtitle text to WebVTT: a `WEBVTT` header, and
/// the decimal comma of timestamps turned into a dot.
pub fn srt_to_vtt(srt: &str) -> (r: String)
    ensures
        r@ == "WEBVTT\n\n"@ + vtt_body(lines(srt@)),
{
    let s = chars_of(srt);
    let ls = lines_vec(&s);
    let comma = chars_of(",");
    let dot = chars_of(".");
    proof {
        reveal_strlit(",");
    }
    let mut out: Vec<char> = Vec::new();
    extend_str(&mut out, "WEBVTT\n\n");
    let ghost head = out@;
    let mut i: usize = 0;
    while i < ls.len()
        invariant
            i <= ls@.len(),
            comma@ == ","@,
            dot@ == "."@,
            comma@.len() > 0,
            out@ == head + vtt_body(views(ls@).take(i as int)),
        decreases ls.len() - i,
    {
        assert(views(ls@).take(i + 1).drop_last() =~= views(ls@).take(i as int));
        assert(views(ls@).take(i + 1).last() == ls@[i as int]@);
        let l = &ls[i];
        if includes(l, "-->") {
            extend(&mut out, &replace_vec(l, &comma, &dot));
        } else {
            extend(&mut out, l);
        }
        extend_str(&mut out, "\n");
        i += 1;
        assert(out@ =~= head + vtt_body(views(ls@).take(i as int)));
    }
    assert(views(ls@).take(i as int) =~= views(ls@));
    string_of(&out)
}

/// A line of a Netscape cookie jar: at least seven tab-separated fields.
pub open spec fn is_cookie_line(l: Seq<char>) -> bool {
    split_char(l, '\t').len() >= 7
}

/// How many of `ls` are cookie lines.
pub open spec fn cookie_lines(ls: Seq<Seq<char>>) -> nat
    decreases ls.len(),
{
    if ls.len() == 0 {
        0
    } else {
        cookie_lines(ls.drop_last()) + if is_cookie_line(ls.last()) {
            1nat
        } else {
            0nat
        }
    }
}

/// Count cookie entries (Netscape lines with seven tab-separated fields).
pub fn count_cookies(text: &str) -> (n: usize)
    ensures
        n == cookie_lines(lines(text@)),
{
    let s = chars_of(text);
    let ls = lines_vec(&s);
    let mut n: usize = 0;
    let mut i: usize = 0;
    while i < ls.len()
        invariant
            i <= ls@.len(),
            n == cookie_lines(views(ls@).take(i as int)),
            n <= i,
        decreases ls.len() - i,
    {
        assert(views(ls@).take(i + 1).drop_last() =~= views(ls@).take(i as int));
        assert(views(ls@).take(i + 1).last() == ls@[i as int]@);
        let fields = split_char_vec(&ls[i], '\t');
        if fields.len() >= 7 {
            n += 1;
        }
        i += 1;
    }
    assert(views(ls@).take(i as int) =~= views(ls@));
    n
}

/// Some line is a cookie line.
pub open spec fn any_cookie_line(ls: Seq<Seq<char>>) -> bool {
    exists|i: int| 0 <= i < ls.len() && is_cookie_line(#[trigger] ls[i])
}

/// Validate pasted text as a Netscape cookie jar and return the content to
/// store (with a final newline): an error when it is blank, or has neither
/// a cookie line nor a Netscape header.
pub open spec fn cookie_jar_spec(text: Seq<char>) -> Result<Seq<char>, Seq<char>> {
    if trim(text).len() == 0 {
        Err("no cookies provided"@)
    } else if !any_cookie_line(lines(text)) && !starts_with(trim_start(text), "# Netscape"@)
        && !starts_with(trim_start(text), "# HTTP Cookie File"@) {
        Err("doesn't look like a Netscape cookies.txt (expected tab-separated fields)"@)
    } else if text.len() > 0 && text.last() == '\n' {
        Ok(text)
    } else {
        Ok(text + "\n"@)
    }
}

/// The content to write to `cookies.txt` for pasted text, or why it was
/// refused.
pub fn prepare_cookies(text: &str) -> (r: Result<String, String>)
    ensures
        match r {
            Ok(c) => cookie_jar_spec(text@) == Ok::<Seq<char>, Seq<char>>(c@),
            Err(e) => cookie_jar_spec(text@) == Err::<Seq<char>, Seq<char>>(e@),
        },
{
    let s = chars_of(text);
    let t = trim_vec(&s);
    if t.len() == 0 {
        return Err(String::from_str("no cookies provided"));
    }
    let ls = lines_vec(&s);
    let mut has_cookie_line = false;
    let mut i: usize = 0;
    while i < ls.len()
        invariant
            i <= ls@.len(),
            has_cookie_line == exists|j: int| 0 <= j < i && is_cookie_line(#[trigger] views(ls@)[j]),
        decreases ls.len() - i,
    {
        let fields = split_char_vec(&ls[i], '\t');
        assert(views(ls@)[i as int] == ls@[i as int]@);
        if fields.len() >= 7 {
            has_cookie_line = true;
        }
        i += 1;
    }
    let (a, b) = crate::text::trim_range(&s, 0, s.len());
    let ts_start = crate::text::trim_start_range(&s, 0, s.len());
    let rest = crate::text::slice(&s, ts_start, s.len());
    assert(s@.subrange(0, s@.len() as int) =~= s@);
    let has_header = begins(&rest, "# Netscape") || begins(&rest, "# HTTP Cookie File");
    if !has_cookie_line && !has_header {
        return Err(
            String::from_str(
                "doesn't look like a Netscape cookies.txt (expected tab-separated fields)",
            ),
        );
    }
    if s.len() > 0 && s[s.len() - 1] == '\n' {
        Ok(String::from_str(text))
    } else {
        let mut out = s.clone();
        out.push('\n');
        proof {
            reveal_strlit("\n");
        }
        assert(out@ =~= s@ + "\n"@);
        Ok(string_of(&out))
    }
}

// ── Login lockout and sessions ───────────────────────────────────────────────

/// Failures per client before logins are refused for a while.
pub const LOGIN_LOCKOUT_AFTER: u32 = 5;

/// How long the lockout lasts once tripped, in seconds.
pub const LOGIN_LOCKOUT_SECS: u64 = 60;

/// How long a session token stays valid after login, in seconds.
pub const SESSION_TTL_SECS: u64 = 2592000;

/// Failed-login tracking entry of one client. Times are seconds on a
/// monotonic clock.
#[derive(Clone, Copy, Debug)]
pub struct LoginAttempt {
    pub failures: u32,
    pub until: Option<u64>,
}

/// The entry after a failed login at `now`: one more failure, and on the
/// [`LOGIN_LOCKOUT_AFTER`]-th a lockout until `now + LOGIN_LOCKOUT_SECS`
/// with the count reset.
pub open spec fn after_failure(a: LoginAttempt, now: u64) -> LoginAttempt {
    if a.failures + 1 >= LOGIN_LOCKOUT_AFTER {
        LoginAttempt { failures: 0, until: Some((now + LOGIN_LOCKOUT_SECS) as u64) }
    } else {
        LoginAttempt { failures: (a.failures + 1) as u32, until: a.until }
    }
}

/// Logins are refused at `now`.
pub open spec fn locked_at(a: LoginAttempt, now: u64) -> bool {
    match a.until {
        Some(u) => u > now,
        None => false,
    }
}

impl LoginAttempt {
    /// A client with no failures yet.
    pub fn new() -> (r: Self)
        ensures
            r.failures == 0,
            r.until is None,
    {
        LoginAttempt { failures: 0, until: None }
    }

    /// Whether logins from this client are refused at `now`.
    pub fn is_locked(&self, now: u64) -> (b: bool)
        ensures
            b == locked_at(*self, now),
    {
        match self.until {
            Some(u) => u > now,
            None => false,
        }
    }

    /// Whether the entry is still worth keeping at `now`: entries whose
    /// lockout has elapsed are dropped.
    pub fn keep(&self, now: u64) -> (b: bool)
        ensures
            b == match self.until {
                Some(u) => u > now,
                None => true,
            },
    {
        match self.until {
            Some(u) => u > now,
            None => true,
        }
    }

    /// Record a failed login at `now`.
    pub fn record_failure(&mut self, now: u64)
        requires
            old(self).failures < u32::MAX,
            now <= u64::MAX - LOGIN_LOCKOUT_SECS,
        ensures
            *final(self) == after_failure(*old(self), now),
    {
        self.failures = self.failures + 1;
        if self.failures >= LOGIN_LOCKOUT_AFTER {
            self.until = Some(now + LOGIN_LOCKOUT_SECS);
            self.failures = 0;
        }
    }
}

/// `n` failed logins at `now`, starting from a fresh entry.
pub open spec fn failures_at(n: nat, now: u64) -> LoginAttempt
    decreases n,
{
    if n == 0 {
        LoginAttempt { failures: 0, until: None }
    } else {
        after_failure(failures_at((n - 1) as nat, now), now)
    }
}

/// Law: a client is refused exactly from its [`LOGIN_LOCKOUT_AFTER`]-th
/// consecutive failure on, for [`LOGIN_LOCKOUT_SECS`] seconds.
pub proof fn lemma_lockout(now: u64)
    requires
        now <= u64::MAX - LOGIN_LOCKOUT_SECS,
    ensures
        forall|n: nat| n < LOGIN_LOCKOUT_AFTER ==> !locked_at(#[trigger] failures_at(n, now), now),
        locked_at(failures_at(LOGIN_LOCKOUT_AFTER as nat, now), now),
        !locked_at(failures_at(LOGIN_LOCKOUT_AFTER as nat, now), (now + LOGIN_LOCKOUT_SECS) as u64),
{
    reveal_with_fuel(failures_at, 6);
    assert(failures_at(0, now).failures == 0);
    assert(failures_at(1, now).failures == 1);
    assert(failures_at(2, now).failures == 2);
    assert(failures_at(3, now).failures == 3);
    assert(failures_at(4, now).failures == 4);
    assert(failures_at(5, now).until == Some((now + LOGIN_LOCKOUT_SECS) as u64));
}

/// A session issued at `issued` is still valid at `now` (a clock reading
/// before `issued` counts as no time elapsed).
pub fn session_valid(issued: u64, now: u64) -> (b: bool)
    ensures
        b == ((if now >= issued {
            now - issued
        } else {
            0
        }) < SESSION_TTL_SECS),
{
    let elapsed = if now >= issued {
        now - issued
    } else {
        0
    };
    elapsed < SESSION_TTL_SECS
}

/// The `session` value of a `Cookie` header: the first `;`-separated part
/// that, trimmed, starts with `session=`.
pub open spec fn session_from_parts(parts: Seq<Seq<char>>) -> Option<Seq<char>>
    decreases parts.len(),
{
    if parts.len() == 0 {
        None
    } else if starts_with(trim(parts[0]), "session="@) {
        Some(trim(parts[0]).skip(8))
    } else {
        session_from_parts(parts.drop_first())
    }
}

/// Extract the `session` cookie value from a `Cookie` header value.
pub fn session_token_from_cookie(cookie: &str) -> (r: Option<String>)
    ensures
        match r {
            Some(t) => session_from_parts(split_char(cookie@, ';')) == Some(t@),
            None => session_from_parts(split_char(cookie@, ';')) is None,
        },
{
    let c = chars_of(cookie);
    let parts = split_char_vec(&c, ';');
    let ghost all = views(parts@);
    let mut i: usize = 0;
    proof {
        reveal_strlit("session=");
    }
    assert(all.skip(0) =~= all);
    while i < parts.len()
        invariant
            i <= parts@.len(),
            all == views(parts@),
            all == split_char(cookie@, ';'),
            session_from_parts(all) == session_from_parts(all.skip(i as int)),
        decreases parts.len() - i,
    {
        assert(all.skip(i as int)[0] == parts@[i as int]@);
        assert(all.skip(i as int).drop_first() =~= all.skip(i + 1));
        let t = trim_vec(&parts[i]);
        match strip_prefix_vec(&t, "session=") {
            Some(v) => {
                proof {
                    reveal_strlit("session=");
                    assert("session="@.len() == 8);
                    assert(starts_with(t@, "session="@));
                    assert(v@ == t@.skip(8));
                    assert(t@ == trim(all.skip(i as int)[0]));
                    assert(session_from_parts(all.skip(i as int)) == Some(v@));
                }
                return Some(string_of(&v));
            },
            None => {},
        }
        i += 1;
    }
    None
}

/// Whether an `X-Forwarded-Proto` value says the client came over HTTPS
/// (ASCII case-insensitive).
pub fn is_https_proto(value: &str) -> (b: bool)
    ensures
        b == (ascii_lower(value@) == "https"@),
{
    let v = chars_of(value);
    let l = ascii_lower_vec(&v);
    eq_lit(&l, "https")
}

/// The `Set-Cookie` value of a session: HTTP-only, same-site strict,
/// `Secure` when served over HTTPS.
pub fn session_cookie(token: &str, secure: bool, max_age_secs: u64) -> (r: String)
    ensures
        r@ == "session="@ + token@ + "; HttpOnly; SameSite=Strict; Path=/; Max-Age="@ + dec(
            max_age_secs as nat,
        ) + if secure {
            "; Secure"@
        } else {
            ""@
        },
{
    let mut out: Vec<char> = Vec::new();
    extend_str(&mut out, "session=");
    extend_str(&mut out, token);
    extend_str(&mut out, "; HttpOnly; SameSite=Strict; Path=/; Max-Age=");
    push_dec(&mut out, max_age_secs);
    if secure {
        extend_str(&mut out, "; Secure");
    } else {
        extend_str(&mut out, "");
    }
    string_of(&out)
}

/// What the authentication layer does with a request.
#[derive(Clone, Copy, PartialEq, Eq, Debug, Structural)]
pub enum AuthOutcome {
    /// Hand the request on.
    Pass,
    /// Serve the login page instead.
    LoginPage,
    /// Answer 401.
    Unauthorized,
}

/// Gate a request: everything passes when no password is set; the login
/// endpoint and authenticated requests always pass; an unauthenticated
/// request for `/` gets the login page and anything else a 401.
pub fn auth_decision(password_required: bool, path: &str, authed: bool) -> (r: AuthOutcome)
    ensures
        r == if !password_required || path@ == "/api/login"@ || authed {
            AuthOutcome::Pass
        } else if path@ == "/"@ {
            AuthOutcome::LoginPage
        } else {
            AuthOutcome::Unauthorized
        },
{
    let p = chars_of(path);
    if !password_required || eq_lit(&p, "/api/login") || authed {
        AuthOutcome::Pass
    } else if eq_lit(&p, "/") {
        AuthOutcome::LoginPage
    } else {
        AuthOutcome::Unauthorized
    }
}

// ── Passwords and session tokens ─────────────────────────────────────────────

/// Whether argon2 accepts `password` against the PHC hash string `hash`.
pub uninterp spec fn argon2_accepts(password: Seq<char>, hash: Seq<char>) -> bool;

/// Check a password against a stored hash. Trusted: parses `hash` with
/// `argon2::PasswordHash::new` and checks it with
/// `PasswordVerifier::verify_password` of `Argon2::default()`; a hash that
/// does not parse is refused. The result is `argon2_accepts` of the two
/// strings; nothing else is claimed of argon2.
#[verifier::external_body]
pub fn verify_password(password: &str, hash: &str) -> (b: bool)
    ensures
        b == argon2_accepts(password@, hash@),
{
    match argon2::PasswordHash::new(hash) {
        Ok(parsed) => argon2::PasswordVerifier::verify_password(
            &argon2::Argon2::default(),
            password.as_bytes(),
            &parsed,
        ).is_ok(),
        Err(_) => false,
    }
}

/// The answer to a login request.
#[derive(Clone, Copy, Debug, PartialEq, Eq, Structural)]
pub enum LoginOutcome {
    /// The client is locked out: too many failed attempts.
    Locked,
    /// No password is configured; there is nothing to log in to.
    NoPassword,
    /// The password matches: a session is issued.
    Accepted,
    /// The password does not match.
    Refused,
}

/// A client's failure entry once entries whose lockout has elapsed at
/// `now` are dropped.
pub open spec fn live_entry(entry: Option<LoginAttempt>, now: u64) -> Option<LoginAttempt> {
    match entry {
        Some(a) => if a.until is None || a.until->0 > now {
            Some(a)
        } else {
            None
        },
        None => None,
    }
}

/// The failure entry a client starts from: its live entry, else a fresh one.
pub open spec fn entry_or_fresh(e: Option<LoginAttempt>) -> LoginAttempt {
    match e {
        Some(a) => a,
        None => LoginAttempt { failures: 0, until: None },
    }
}

/// The answer to a login whose password was checked (`matched`), for a
/// client with live entry `e` that is not locked out, and the client's
/// entry afterwards: a match clears it, a mismatch counts as a failure
/// (see [`after_failure`]).
pub fn login_result(e: Option<LoginAttempt>, matched: bool, now: u64) -> (r: (LoginOutcome, Option<LoginAttempt>))
    requires
        e matches Some(a) ==> a.failures < u32::MAX,
        now <= u64::MAX - LOGIN_LOCKOUT_SECS,
    ensures
        r == if matched {
            (LoginOutcome::Accepted, None::<LoginAttempt>)
        } else {
            (LoginOutcome::Refused, Some(after_failure(entry_or_fresh(e), now)))
        },
{
    if matched {
        (LoginOutcome::Accepted, None)
    } else {
        let mut a = match e {
            Some(a) => a,
            None => LoginAttempt::new(),
        };
        a.record_failure(now);
        (LoginOutcome::Refused, Some(a))
    }
}

/// One login request at `now` from a client with failure entry `entry`,
/// against the stored password hash: the answer and the client's entry
/// afterwards (`None`: no entry). Entries whose lockout has elapsed are
/// dropped first; a locked-out client is refused before the password is
/// looked at; otherwise the password is checked with argon2 and
/// [`login_result`] decides.
pub fn login_step(entry: Option<LoginAttempt>, password: &str, stored_hash: Option<&str>, now: u64) -> (r: (
    LoginOutcome,
    Option<LoginAttempt>,
))
    requires
        entry matches Some(a) ==> a.failures < u32::MAX,
        now <= u64::MAX - LOGIN_LOCKOUT_SECS,
    ensures
        ({
            let e = live_entry(entry, now);
            if e matches Some(a) && locked_at(a, now) {
                r == (LoginOutcome::Locked, e)
            } else {
                match stored_hash {
                    None => r == (LoginOutcome::NoPassword, e),
                    Some(h) => r == if argon2_accepts(password@, h@) {
                        (LoginOutcome::Accepted, None::<LoginAttempt>)
                    } else {
                        (LoginOutcome::Refused, Some(after_failure(entry_or_fresh(e), now)))
                    },
                }
            }
        }),
{
    let e = match entry {
        Some(a) => if a.keep(now) {
            Some(a)
        } else {
            None
        },
        None => None,
    };
    if let Some(a) = e {
        if a.is_locked(now) {
            return (LoginOutcome::Locked, e);
        }
    }
    match stored_hash {
        None => (LoginOutcome::NoPassword, e),
        Some(h) => {
            let matched = verify_password(password, h);
            login_result(e, matched, now)
        },
    }
}

/// Hash a password with a fresh random salt. Trusted: wraps
/// `SaltString::generate(rand::thread_rng())` and
/// `PasswordHasher::hash_password` of `Argon2::default()`, rendering the
/// PHC string; `None` when argon2 refuses the input. The salt is random,
/// so only this is claimed of the result: argon2 accepts the password
/// against it (verification re-hashes with the salt and parameters the
/// string records).
#[verifier::external_body]
pub fn hash_password(password: &str) -> (r: Option<String>)
    ensures
        r matches Some(h) ==> argon2_accepts(password@, h@),
{
    let salt = argon2::password_hash::SaltString::generate(rand::thread_rng());
    match argon2::PasswordHasher::hash_password(
        &argon2::Argon2::default(),
        password.as_bytes(),
        &salt,
    ) {
        Ok(h) => Some(h.to_string()),
        Err(_) => None,
    }
}

/// 32 bytes from the thread-local cryptographic generator. Trusted: wraps
/// `RngCore::fill_bytes` of `rand::thread_rng()`; only the length is
/// claimed.
#[verifier::external_body]
fn random_bytes_32() -> (r: Vec<u8>)
    ensures
        r@.len() == 32,
{
    let mut bytes = [0u8; 32];
    rand::RngCore::fill_bytes(&mut rand::thread_rng(), &mut bytes);
    bytes.to_vec()
}

/// A lowercase hexadecimal digit.
pub open spec fn hex_digit_lower(d: int) -> char {
    if d < 10 {
        (48 + d) as char
    } else {
        (87 + d) as char
    }
}

/// Two lowercase hexadecimal digits per byte.
pub open spec fn hex_lower_spec(bytes: Seq<u8>) -> Seq<char>
    decreases bytes.len(),
{
    if bytes.len() == 0 {
        seq![]
    } else {
        hex_lower_spec(bytes.drop_last()) + seq![
            hex_digit_lower(bytes.last() as int / 16),
            hex_digit_lower(bytes.last() as int % 16),
        ]
    }
}

/// Lowercase hexadecimal encoding of a byte string.
pub fn hex_lower(bytes: &Vec<u8>) -> (r: String)
    ensures
        r@ == hex_lower_spec(bytes@),
{
    let mut out: Vec<char> = Vec::new();
    let mut i: usize = 0;
    while i < bytes.len()
        invariant
            i <= bytes@.len(),
            out@ == hex_lower_spec(bytes@.take(i as int)),
        decreases bytes.len() - i,
    {
        assert(bytes@.take(i + 1).drop_last() =~= bytes@.take(i as int));
        let b = bytes[i];
        let hi = b / 16;
        let lo = b % 16;
        let ch = if hi < 10 {
            (48 + hi) as char
        } else {
            (87 + hi) as char
        };
        let cl = if lo < 10 {
            (48 + lo) as char
        } else {
            (87 + lo) as char
        };
        out.push(ch);
        out.push(cl);
        i += 1;
        assert(out@ =~= hex_lower_spec(bytes@.take(i as int)));
    }
    assert(bytes@.take(i as int) =~= bytes@);
    string_of(&out)
}

/// A fresh 256-bit session token, hex-encoded: 64 lowercase hex digits of
/// 32 random bytes.
pub fn generate_session_token() -> (r: String)
    ensures
        exists|b: Seq<u8>| b.len() == 32 && r@ == #[trigger] hex_lower_spec(b),
{
    let bytes = random_bytes_32();
    let r = hex_lower(&bytes);
    assert(bytes@.len() == 32 && r@ == hex_lower_spec(bytes@));
    r
}

// ── Settings updates ─────────────────────────────────────────────────────────

/// A settings change posted from the web UI.
#[derive(Clone, Debug)]
pub struct SettingsUpdate {
    pub transcode: bool,
    /// New bind mode (`"tailscale"`, `"lan"`, `"all"`, else loopback).
    pub bind_mode: Option<String>,
    /// New Plex library folder; blank clears it.
    pub plex_library_path: Option<String>,
    /// New source-code URL; blank clears it.
    pub source_url: Option<String>,
    pub scheduler_enabled: bool,
    /// New check interval; 0 keeps the current one.
    pub scheduler_interval_hours: u32,
    /// New download concurrency; 0 keeps the current one.
    pub max_concurrent: usize,
    pub use_bundled_ytdlp: bool,
}

/// A text setting after an update: absent leaves it, blank (after
/// trimming) clears it, anything else sets it trimmed.
pub open spec fn updated_text(old: Option<String>, new: Option<String>) -> Option<Seq<char>> {
    match new {
        None => match old {
            Some(o) => Some(o@),
            None => None,
        },
        Some(n) => if trim(n@).len() == 0 {
            None
        } else {
            Some(trim(n@))
        },
    }
}

/// The view of an optional text setting.
pub open spec fn opt_text(v: Option<String>) -> Option<Seq<char>> {
    match v {
        Some(s) => Some(s@),
        None => None,
    }
}

/// `new` trimmed, or `None` when that is empty; `old` when `new` is absent.
fn update_text(old: &Option<String>, new: &Option<String>) -> (r: Option<String>)
    ensures
        opt_text(r) == updated_text(*old, *new),
{
    match new {
        None => old.clone(),
        Some(n) => {
            let t = trim_vec(&chars_of(n.as_str()));
            if t.len() == 0 {
                None
            } else {
                Some(string_of(&t))
            }
        },
    }
}

/// Apply a settings change to the config sections it touches: the
/// transcode switch, bind address (resolved from the mode with the
/// detected addresses), Plex folder, source URL, scheduler switch and
/// interval, concurrency and bundled yt-dlp switch. A zero interval or
/// concurrency keeps the current value; the port and the other fields
/// are left alone.
pub fn apply_settings(
    web: &mut crate::config::WebSection,
    plex: &mut crate::config::PlexSection,
    sched: &mut crate::config::SchedulerSection,
    backup: &mut crate::config::BackupSection,
    u: &SettingsUpdate,
    tailscale_ip: Option<&str>,
    lan_ip: Option<&str>,
)
    ensures
        final(web).transcode == u.transcode,
        final(web).port == old(web).port,
        final(web).bind@ == match u.bind_mode {
            Some(m) => (if m@ == "tailscale"@ {
                match tailscale_ip {
                    Some(ip) => ip@,
                    None => "127.0.0.1"@,
                }
            } else if m@ == "lan"@ {
                match lan_ip {
                    Some(ip) => ip@,
                    None => "127.0.0.1"@,
                }
            } else if m@ == "all"@ {
                "0.0.0.0"@
            } else {
                "127.0.0.1"@
            }),
            None => old(web).bind@,
        },
        opt_text(final(web).source_url) == updated_text(old(web).source_url, u.source_url),
        opt_text(final(plex).library_path) == updated_text(old(plex).library_path, u.plex_library_path),
        final(sched).enabled == u.scheduler_enabled,
        final(sched).interval_hours == if u.scheduler_interval_hours > 0 {
            u.scheduler_interval_hours
        } else {
            old(sched).interval_hours
        },
        final(backup).max_concurrent == if u.max_concurrent > 0 {
            u.max_concurrent
        } else {
            old(backup).max_concurrent
        },
        final(backup).use_bundled_ytdlp == u.use_bundled_ytdlp,
        final(backup).directory == old(backup).directory,
        final(backup).use_pot_provider == old(backup).use_pot_provider,
        final(backup).youtube_player_clients == old(backup).youtube_player_clients,
{
    web.transcode = u.transcode;
    if let Some(m) = &u.bind_mode {
        web.bind = resolve_bind_mode(m.as_str(), tailscale_ip, lan_ip);
    }
    plex.library_path = update_text(&plex.library_path, &u.plex_library_path);
    web.source_url = update_text(&web.source_url, &u.source_url);
    sched.enabled = u.scheduler_enabled;
    if u.scheduler_interval_hours > 0 {
        sched.interval_hours = u.scheduler_interval_hours;
    }
    if u.max_concurrent > 0 {
        backup.max_concurrent = u.max_concurrent;
    }
    backup.use_bundled_ytdlp = u.use_bundled_ytdlp;
}

/// Whether the background scheduler starts its channel checks now: it is
/// enabled, no download is running, and there has been no check yet or
/// at least the interval has passed since the last one. An interval of
/// 0 hours counts as 1, so a hand-edited config cannot fire every tick.
pub fn scheduler_due(enabled: bool, interval_hours: u32, any_running: bool, secs_since_last: Option<u64>) -> (r: bool)
    ensures
        r == (enabled && !any_running && match secs_since_last {
            None => true,
            Some(s) => s >= (if interval_hours == 0 {
                1
            } else {
                interval_hours as int
            }) * 3600,
        }),
{
    if !enabled || any_running {
        return false;
    }
    let hours: u64 = if interval_hours == 0 {
        1
    } else {
        interval_hours as u64
    };
    match secs_since_last {
        None => true,
        Some(s) => s >= hours * 3600,
    }
}

/// The quality a scheduled check of a channel asks for: the channel's own
/// quality cap, else the best available.
pub fn check_quality(opts: &crate::download_options::DownloadOptions) -> (r: crate::downloader::DownloadQuality)
    ensures
        r == match opts.quality {
            Some(q) => q,
            None => crate::downloader::DownloadQuality::Best,
        },
{
    match opts.quality {
        Some(q) => q,
        None => crate::downloader::DownloadQuality::Best,
    }
}

/// Seconds until the next scheduled check: none while the scheduler is
/// off, 0 before the first check, else what is left of the interval since
/// the last one (never negative).
pub fn next_check_secs(enabled: bool, interval_hours: u32, secs_since_last: Option<u64>) -> (r: Option<u64>)
    ensures
        r == if !enabled {
            None
        } else {
            match secs_since_last {
                None => Some(0u64),
                Some(e) => Some(
                    if e >= interval_hours as int * 3600 {
                        0u64
                    } else {
                        (interval_hours as int * 3600 - e) as u64
                    },
                ),
            }
        },
{
    if !enabled {
        return None;
    }
    let interval: u64 = interval_hours as u64 * 3600;
    match secs_since_last {
        None => Some(0),
        Some(e) => Some(interval.saturating_sub(e)),
    }
}

// ── Helper process command lines ─────────────────────────────────────────────

/// The ffmpeg arguments that re-encode a video on the fly for browsers
/// that cannot play its container: fast H.264 + AAC, fragmented MP4 on
/// stdout.
pub open spec fn transcode_stream_args_spec(path: Seq<char>) -> Seq<Seq<char>> {
    seq![
        "-hide_banner"@,
        "-loglevel"@,
        "error"@,
        "-i"@,
        path,
        "-c:v"@,
        "libx264"@,
        "-preset"@,
        "veryfast"@,
        "-crf"@,
        "23"@,
        "-c:a"@,
        "aac"@,
        "-b:a"@,
        "128k"@,
        "-movflags"@,
        "frag_keyframe+empty_moov+default_base_moof"@,
        "-f"@,
        "mp4"@,
        "-"@,
    ]
}

/// The arguments of the streaming transcode of the video file `path`.
pub fn transcode_stream_args(path: &str) -> (r: Vec<String>)
    ensures
        strings(r@) == transcode_stream_args_spec(path@),
{
    let mut a: Vec<String> = Vec::new();
    push_arg(&mut a, "-hide_banner");
    push_arg(&mut a, "-loglevel");
    push_arg(&mut a, "error");
    push_arg(&mut a, "-i");
    push_arg(&mut a, path);
    push_arg(&mut a, "-c:v");
    push_arg(&mut a, "libx264");
    push_arg(&mut a, "-preset");
    push_arg(&mut a, "veryfast");
    push_arg(&mut a, "-crf");
    push_arg(&mut a, "23");
    push_arg(&mut a, "-c:a");
    push_arg(&mut a, "aac");
    push_arg(&mut a, "-b:a");
    push_arg(&mut a, "128k");
    push_arg(&mut a, "-movflags");
    push_arg(&mut a, "frag_keyframe+empty_moov+default_base_moof");
    push_arg(&mut a, "-f");
    push_arg(&mut a, "mp4");
    push_arg(&mut a, "-");
    assert(strings(a@) =~= transcode_stream_args_spec(path@));
    a
}

/// The yt-dlp arguments of a link preview: one flat JSON dump, with the
/// downloader's cookie precedence and the URL's platform impersonation.
pub open spec fn preview_args_spec(url: Seq<char>, cookies_txt_exists: bool, browser: Seq<char>) -> Seq<
    Seq<char>,
> {
    seq!["--dump-single-json"@, "--flat-playlist"@, "--no-warnings"@]
        + crate::downloader::cookie_args_spec(cookies_txt_exists, browser) + (match crate::platform::impersonate_of(
        crate::platform::platform_of_lowered(crate::text::unicode_lower(url)),
    ) {
        Some(t) => seq!["--impersonate"@, t],
        None => seq![],
    }) + seq![url]
}

/// The arguments of the preview of `url` (already trimmed and non-empty).
pub fn preview_args(url: &str, cookies_txt_exists: bool, browser: &str) -> (r: Vec<String>)
    ensures
        strings(r@) == preview_args_spec(url@, cookies_txt_exists, browser@),
{
    let mut a: Vec<String> = Vec::new();
    push_arg(&mut a, "--dump-single-json");
    push_arg(&mut a, "--flat-playlist");
    push_arg(&mut a, "--no-warnings");
    crate::downloader::append_strings(&mut a, &crate::downloader::cookie_args(cookies_txt_exists, browser));
    let platform = crate::platform::Platform::from_url(url);
    crate::downloader::append_strings(&mut a, &crate::downloader::impersonation_args(platform));
    push_arg(&mut a, url);
    assert(strings(a@) =~= preview_args_spec(url@, cookies_txt_exists, browser@));
    a
}

// ── Library URLs ─────────────────────────────────────────────────────────────

/// The URL a browser plays a video from: the on-the-fly transcode of its
/// id when transcoding is on, else its file under `/files/` (when the
/// file is inside the library).
pub fn video_url(transcode: bool, id: &str, library_root: &str, video_path: &str) -> (r: Option<String>)
    ensures
        match r {
            Some(u) => if transcode {
                u@ == "/api/transcode/"@ + pct_encode(id.spec_bytes())
            } else {
                file_url_spec(library_root@, video_path@) == Some(u@)
            },
            None => !transcode && file_url_spec(library_root@, video_path@) is None,
        },
{
    if transcode {
        let mut out: Vec<char> = Vec::new();
        extend_str(&mut out, "/api/transcode/");
        extend_str(&mut out, percent_encode_segment(id).as_str());
        Some(string_of(&out))
    } else {
        file_url(library_root, video_path)
    }
}

/// The URL of a subtitle track: an `.srt` file goes through the WebVTT
/// conversion endpoint by its path relative to the library, anything else
/// is served as a file.
pub fn subtitle_url(library_root: &str, path: &str) -> (r: Option<String>)
    ensures
        match r {
            Some(u) => if crate::paths::path_extension(path@) == Some("srt"@) {
                crate::paths::path_strip_prefix(path@, library_root@) matches Some(rel) && u@ == "/api/sub-vtt/"@ + rel
            } else {
                file_url_spec(library_root@, path@) == Some(u@)
            },
            None => if crate::paths::path_extension(path@) == Some("srt"@) {
                crate::paths::path_strip_prefix(path@, library_root@) is None
            } else {
                file_url_spec(library_root@, path@) is None
            },
        },
{
    let is_srt = match crate::paths::extension(path) {
        Some(e) => {
            let ev = chars_of(e.as_str());
            eq_lit(&ev, "srt")
        },
        None => false,
    };
    proof {
        reveal_strlit("srt");
    }
    if is_srt {
        match strip_prefix(path, library_root) {
            Some(rel) => {
                let mut out: Vec<char> = Vec::new();
                extend_str(&mut out, "/api/sub-vtt/");
                extend_str(&mut out, rel.as_str());
                Some(string_of(&out))
            },
            None => None,
        }
    } else {
        file_url(library_root, path)
    }
}

/// The URL of a file of the music library: `/music-files/<path relative
/// to the music folder>`, when it is inside it.
pub fn music_file_url(music_root: &str, path: &str) -> (r: Option<String>)
    ensures
        match r {
            Some(u) => crate::paths::path_strip_prefix(path@, music_root@) matches Some(rel) && u@
                == "/music-files/"@ + rel,
            None => crate::paths::path_strip_prefix(path@, music_root@) is None,
        },
{
    match strip_prefix(path, music_root) {
        Some(rel) => {
            let mut out: Vec<char> = Vec::new();
            extend_str(&mut out, "/music-files/");
            extend_str(&mut out, rel.as_str());
            Some(string_of(&out))
        },
        None => None,
    }
}

/// The ETag of library version `version`: the number in double quotes.
pub fn library_etag(version: u64) -> (r: String)
    ensures
        r@ == "\""@ + dec(version as nat) + "\""@,
{
    let mut out: Vec<char> = Vec::new();
    out.push('"');
    push_dec(&mut out, version);
    out.push('"');
    proof {
        reveal_strlit("\"");
    }
    assert(out@ =~= "\""@ + dec(version as nat) + "\""@);
    string_of(&out)
}

} // verus!
