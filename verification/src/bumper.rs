//! Bumpers: the templates rendered for station idents and the files behind
//! them, with the checks applied to what editors upload or link.
use vstd::prelude::*;
use crate::models::User;
use crate::text::{
    chars_of, concat, ends_with, is_prefix, is_suffix, owned, push_all, push_str, starts_with,
    str_eq, str_starts_with, string_from,
};
use crate::tts::{all_digits, digits_value};

verus! {

/// The XML text for one character: markup characters become entities.
pub open spec fn xml_char(c: char) -> Seq<char> {
    if c == '&' {
        "&amp;"@
    } else if c == '<' {
        "&lt;"@
    } else if c == '>' {
        "&gt;"@
    } else if c == '"' {
        "&quot;"@
    } else if c == '\'' {
        "&apos;"@
    } else {
        seq![c]
    }
}

/// `s` with every markup character replaced by its entity.
pub open spec fn xml_escaped(s: Seq<char>) -> Seq<char>
    decreases s.len(),
{
    if s.len() == 0 {
        seq![]
    } else {
        xml_escaped(s.drop_last()) + xml_char(s.last())
    }
}

/// Escapes `&`, `<`, `>`, `"` and `'` for use inside XML.
pub fn escape_xml(s: &str) -> (r: String)
    ensures
        r@ == xml_escaped(s@),
{
    let cs = chars_of(s);
    let mut out: Vec<char> = Vec::new();
    let mut i: usize = 0;
    while i < cs.len()
        invariant
            i <= cs@.len(),
            cs@ == s@,
            out@ == xml_escaped(cs@.take(i as int)),
        decreases cs@.len() - i,
    {
        let c = cs[i];
        if c == '&' {
            push_str(&mut out, "&amp;");
        } else if c == '<' {
            push_str(&mut out, "&lt;");
        } else if c == '>' {
            push_str(&mut out, "&gt;");
        } else if c == '"' {
            push_str(&mut out, "&quot;");
        } else if c == '\'' {
            push_str(&mut out, "&apos;");
        } else {
            out.push(c);
        }
        proof {
            assert(cs@.take(i as int + 1).drop_last() =~= cs@.take(i as int));
        }
        i = i + 1;
    }
    assert(cs@.take(cs@.len() as int) =~= cs@);
    string_from(out.as_slice())
}

/// `s` with every occurrence of `pat`, scanned left to right without
/// overlaps, replaced by `rep` (`str::replace`).
pub open spec fn replaced(s: Seq<char>, pat: Seq<char>, rep: Seq<char>) -> Seq<char>
    decreases s.len(),
{
    if pat.len() == 0 || s.len() == 0 {
        s
    } else if is_prefix(pat, s) {
        rep + replaced(s.skip(pat.len() as int), pat, rep)
    } else {
        seq![s[0]] + replaced(s.drop_first(), pat, rep)
    }
}

/// Replaces every occurrence of the non-empty `pat` in `s` by `rep`.
pub fn replace_all(s: &str, pat: &str, rep: &str) -> (r: String)
    requires
        pat@.len() > 0,
    ensures
        r@ == replaced(s@, pat@, rep@),
{
    let cs = chars_of(s);
    let ps = chars_of(pat);
    let rs = chars_of(rep);
    let n = cs.len();
    let mut out: Vec<char> = Vec::new();
    let mut i: usize = 0;
    assert(cs@.skip(0) =~= cs@);
    assert(out@ + replaced(cs@.skip(0), ps@, rs@) =~= replaced(s@, pat@, rep@));
    while i < n
        invariant
            i <= n,
            n == cs@.len(),
            cs@ == s@,
            ps@ == pat@,
            rs@ == rep@,
            ps@.len() > 0,
            out@ + replaced(cs@.skip(i as int), ps@, rs@) == replaced(s@, pat@, rep@),
        decreases n - i,
    {
        let ghost rest = cs@.skip(i as int);
        let mut matched = ps.len() <= n - i;
        let mut k: usize = 0;
        while matched && k < ps.len()
            invariant
                k <= ps@.len(),
                i + ps@.len() <= n ==> true,
                n == cs@.len(),
                i < n,
                matched ==> i + ps@.len() <= n,
                matched ==> forall|q: int| 0 <= q < k ==> cs@[i + q] == ps@[q],
                !matched ==> !is_prefix(ps@, cs@.skip(i as int)),
            decreases ps@.len() - k,
        {
            if cs[i + k] != ps[k] {
                matched = false;
                assert(cs@.skip(i as int).take(ps@.len() as int)[k as int] == cs@[i + k]);
            }
            k = k + 1;
        }
        if matched {
            assert(cs@.skip(i as int).take(ps@.len() as int) =~= ps@);
            push_all(&mut out, rs.as_slice());
            assert(rest.skip(ps@.len() as int) =~= cs@.skip(i + ps@.len()));
            i = i + ps.len();
        } else {
            out.push(cs[i]);
            assert(rest.drop_first() =~= cs@.skip(i + 1));
            i = i + 1;
        }
    }
    assert(cs@.skip(n as int).len() == 0);
    assert(out@ + seq![] =~= out@);
    string_from(out.as_slice())
}

/// The template after the station's name, theme colour and (when there is
/// one) bumper back path have been filled in, each escaped for XML.
pub open spec fn substituted(template: Seq<char>, station: Seq<char>, color: Seq<char>, back: Option<Seq<char>>) -> Seq<char> {
    let a = replaced(
        replaced(template, "{{STATION_NAME}}"@, xml_escaped(station)),
        "{{THEME_COLOR}}"@,
        xml_escaped(color),
    );
    match back {
        Some(p) => replaced(a, "{{BUMPER_BACK_PATH}}"@, xml_escaped(p)),
        None => a,
    }
}

/// Fills in the variables of a bumper's MLT template.
pub fn substitute_variables(template: &str, station_name: &str, theme_color: &str, bumper_back_path: Option<&str>) -> (r: String)
    ensures
        r@ == substituted(
            template@,
            station_name@,
            theme_color@,
            match bumper_back_path {
                Some(p) => Some(p@),
                None => None,
            },
        ),
{
    proof {
        reveal_strlit("{{STATION_NAME}}");
        reveal_strlit("{{THEME_COLOR}}");
        reveal_strlit("{{BUMPER_BACK_PATH}}");
    }
    let name = escape_xml(station_name);
    let color = escape_xml(theme_color);
    let a = replace_all(template, "{{STATION_NAME}}", name.as_str());
    let b = replace_all(a.as_str(), "{{THEME_COLOR}}", color.as_str());
    match bumper_back_path {
        Some(p) => {
            let e = escape_xml(p);
            replace_all(b.as_str(), "{{BUMPER_BACK_PATH}}", e.as_str())
        },
        None => b,
    }
}

/// The kinds a bumper may have.
pub open spec fn bumper_type_ok(t: Seq<char>) -> bool {
    t == "station_ident"@ || t == "transition"@ || t == "show_opener"@ || t == "lower_third"@
        || t == "custom"@
}

/// Whether a bumper kind is one of the known ones.
pub fn is_valid_bumper_type(t: &str) -> (b: bool)
    ensures
        b == bumper_type_ok(t@),
{
    str_eq(t, "station_ident") || str_eq(t, "transition") || str_eq(t, "show_opener") || str_eq(
        t,
        "lower_third",
    ) || str_eq(t, "custom")
}

/// Who may delete a bumper or bumper back: editors, and for the built-in
/// ones admins only.
pub fn may_delete(user: &User, is_builtin: bool) -> (b: bool)
    ensures
        b == (user.editor_role() && (!is_builtin || user.admin_role())),
{
    user.is_editor() && (!is_builtin || user.is_admin())
}

/// Where the renderer finds a bumper back stored at `file_path`.
pub fn bumper_back_source(file_path: &str) -> (r: String)
    ensures
        r@ == "static/"@ + file_path@,
{
    concat("static/", file_path)
}

/// The file extension a downloaded bumper back is stored under.
pub open spec fn remote_extension(url: Seq<char>) -> Seq<char> {
    if is_suffix(".webm"@, url) {
        "webm"@
    } else if is_suffix(".mov"@, url) {
        "mov"@
    } else {
        "mp4"@
    }
}

/// Picks the extension of a downloaded file from its URL.
pub fn remote_file_extension(url: &str) -> (r: String)
    ensures
        r@ == remote_extension(url@),
{
    let cs = chars_of(url);
    let webm = chars_of(".webm");
    let mov = chars_of(".mov");
    if ends_with(cs.as_slice(), webm.as_slice()) {
        owned("webm")
    } else if ends_with(cs.as_slice(), mov.as_slice()) {
        owned("mov")
    } else {
        owned("mp4")
    }
}

/// `s` cut at every `sep` (`str::split`): always at least one piece.
pub open spec fn split_on(s: Seq<char>, sep: char) -> Seq<Seq<char>>
    decreases s.len(),
{
    if s.len() == 0 {
        seq![seq![]]
    } else {
        let prev = split_on(s.drop_last(), sep);
        if s.last() == sep {
            prev.push(seq![])
        } else {
            prev.drop_last().push(prev.last().push(s.last()))
        }
    }
}

/// Splitting always gives at least one part (the whole text when the
/// separator does not occur).
pub proof fn lemma_split_nonempty(s: Seq<char>, sep: char)
    ensures
        split_on(s, sep).len() >= 1,
    decreases s.len(),
{
    if s.len() > 0 {
        lemma_split_nonempty(s.drop_last(), sep);
    }
}

/// Splits `s` at every `sep`.
pub fn split_chars(s: &[char], sep: char) -> (r: Vec<Vec<char>>)
    ensures
        r@.map_values(|p: Vec<char>| p@) == split_on(s@, sep),
{
    let mut done: Vec<Vec<char>> = Vec::new();
    let mut cur: Vec<char> = Vec::new();
    let mut i: usize = 0;
    while i < s.len()
        invariant
            i <= s@.len(),
            done@.map_values(|p: Vec<char>| p@).push(cur@) == split_on(s@.take(i as int), sep),
        decreases s@.len() - i,
    {
        proof {
            assert(s@.take(i as int + 1).drop_last() =~= s@.take(i as int));
            lemma_split_nonempty(s@.take(i as int), sep);
        }
        let ghost prev = split_on(s@.take(i as int), sep);
        if s[i] == sep {
            let finished = cur;
            done.push(finished);
            cur = Vec::new();
            proof {
                assert(done@.map_values(|p: Vec<char>| p@).push(cur@) =~= prev.push(seq![]));
            }
        } else {
            cur.push(s[i]);
            proof {
                assert(done@.map_values(|p: Vec<char>| p@).push(cur@) =~= prev.drop_last().push(
                    prev.last().push(s@[i as int]),
                ));
            }
        }
        i = i + 1;
    }
    assert(s@.take(s@.len() as int) =~= s@);
    done.push(cur);
    done
}

/// A decimal octet as `Ipv4Addr` parsing accepts it: one to three digits,
/// no leading zero, at most 255.
pub open spec fn octet_text(p: Seq<char>) -> bool {
    1 <= p.len() <= 3 && all_digits(p) && !(p.len() > 1 && p[0] == '0') && digits_value(p) <= 255
}

/// The four octets of a dotted-quad IPv4 address (`str::parse::<Ipv4Addr>`).
pub open spec fn ipv4_octets(s: Seq<char>) -> Option<Seq<int>> {
    let parts = split_on(s, '.');
    if parts.len() == 4 && forall|i: int| 0 <= i < 4 ==> octet_text(#[trigger] parts[i]) {
        Some(parts.map_values(|p: Seq<char>| digits_value(p)))
    } else {
        None
    }
}

fn octet_value(p: &[char]) -> (r: Option<u32>)
    ensures
        r matches Some(v) ==> octet_text(p@) && v == digits_value(p@),
        r is None ==> !octet_text(p@),
{
    let n = p.len();
    if n < 1 || n > 3 {
        return None;
    }
    if n > 1 && p[0] == '0' {
        return None;
    }
    let mut v: u32 = 0;
    let mut i: usize = 0;
    while i < n
        invariant
            i <= n,
            1 <= n <= 3,
            n == p@.len(),
            forall|k: int| 0 <= k < i ==> '0' <= #[trigger] p@[k] <= '9',
            v == digits_value(p@.take(i as int)),
            v < 1000,
            i == 0 ==> v == 0,
            i == 1 ==> v < 10,
            i == 2 ==> v < 100,
        decreases n - i,
    {
        let c = p[i];
        if c < '0' || c > '9' {
            return None;
        }
        proof {
            assert(p@.take(i as int + 1).drop_last() =~= p@.take(i as int));
        }
        v = v * 10 + (c as u32 - '0' as u32);
        i = i + 1;
    }
    assert(p@.take(n as int) =~= p@);
    if v > 255 {
        return None;
    }
    Some(v)
}

/// Parses a dotted-quad IPv4 address.
pub fn parse_ipv4(s: &str) -> (r: Option<Vec<u32>>)
    ensures
        r matches Some(v) ==> v@.len() == 4 && ipv4_octets(s@) == Some(v@.map_values(|x: u32| x as int)),
        r is None ==> ipv4_octets(s@) is None,
{
    let cs = chars_of(s);
    let parts = split_chars(cs.as_slice(), '.');
    let ghost pv = parts@.map_values(|p: Vec<char>| p@);
    if parts.len() != 4 {
        return None;
    }
    let mut out: Vec<u32> = Vec::new();
    let mut i: usize = 0;
    while i < 4
        invariant
            i <= 4,
            parts@.len() == 4,
            pv == parts@.map_values(|p: Vec<char>| p@),
            pv == split_on(s@, '.'),
            out@.len() == i,
            forall|k: int| 0 <= k < i ==> octet_text(#[trigger] pv[k]) && out@[k] == digits_value(pv[k]),
        decreases 4 - i,
    {
        match octet_value(parts[i].as_slice()) {
            Some(v) => out.push(v),
            None => {
                assert(pv[i as int] == parts@[i as int]@);
                assert(!octet_text(pv[i as int]));
                return None;
            },
        }
        i = i + 1;
    }
    assert(out@.map_values(|x: u32| x as int) =~= pv.map_values(|p: Seq<char>| digits_value(p)));
    Some(out)
}

/// Loopback (127/8) or the unspecified address.
pub open spec fn local_ipv4(o: Seq<int>) -> bool {
    o[0] == 127 || (o[0] == 0 && o[1] == 0 && o[2] == 0 && o[3] == 0)
}

/// Private (10/8, 172.16/12, 192.168/16) or link-local (169.254/16).
pub open spec fn private_ipv4(o: Seq<int>) -> bool {
    o[0] == 10 || (o[0] == 172 && 16 <= o[1] <= 31) || (o[0] == 192 && o[1] == 168) || (o[0]
        == 169 && o[1] == 254)
}

/// What `url::Url::parse` makes of `input`: its scheme and host text, or the
/// message of the error it reports.
pub uninterp spec fn url_parse(input: Seq<char>) -> Result<(Seq<char>, Option<Seq<char>>), Seq<char>>;

/// The plain view of a parsed URL's scheme and host text.
pub open spec fn parsed_url_view(r: Result<(String, Option<String>), String>) -> Result<(Seq<char>, Option<Seq<char>>), Seq<char>> {
    match r {
        Ok((s, h)) => Ok((s@, crate::tts::opt_view(h))),
        Err(e) => Err(e@),
    }
}

/// Parses a URL with `url::Url::parse` and keeps its scheme and host text.
#[verifier::external_body]
fn parse_url(input: &str) -> (r: Result<(String, Option<String>), String>)
    ensures
        url_parse(input@) == parsed_url_view(r),
{
    match url::Url::parse(input) {
        Ok(u) => {
            let host = match u.host_str() {
                Some(h) => Some(h.to_string()),
                None => None,
            };
            Ok((u.scheme().to_string(), host))
        },
        Err(e) => Err(e.to_string()),
    }
}

/// Whether a parsed URL may be fetched: only HTTP(S), never localhost, and
/// never a loopback, unspecified, private or link-local IPv4 host. An IPv6
/// host is written in brackets and so never reads as an address here.
pub open spec fn url_verdict(parsed: Result<(Seq<char>, Option<Seq<char>>), Seq<char>>) -> Result<(), Seq<char>> {
    match parsed {
        Err(e) => Err(e),
        Ok((scheme, host)) => if scheme != "http"@ && scheme != "https"@ {
            Err("Invalid URL scheme: "@ + scheme)
        } else {
            match host {
                None => Ok(()),
                Some(h) => if h == "localhost"@ {
                    Err("Access to localhost is denied"@)
                } else {
                    match ipv4_octets(h) {
                        Some(o) => if local_ipv4(o) {
                            Err("Access to local/unspecified IP is denied"@)
                        } else if private_ipv4(o) {
                            Err("Access to private network is denied"@)
                        } else {
                            Ok(())
                        },
                        None => Ok(()),
                    }
                },
            }
        },
    }
}

pub open spec fn unit_result_view(r: Result<(), String>) -> Result<(), Seq<char>> {
    match r {
        Ok(()) => Ok(()),
        Err(e) => Err(e@),
    }
}

/// Decides on a parsed URL (see `url_verdict`).
pub fn check_parsed_url(parsed: Result<(String, Option<String>), String>) -> (r: Result<(), String>)
    ensures
        unit_result_view(r) == url_verdict(parsed_url_view(parsed)),
{
    match parsed {
        Err(e) => Err(e),
        Ok((scheme, host)) => {
            if !str_eq(scheme.as_str(), "http") && !str_eq(scheme.as_str(), "https") {
                return Err(concat("Invalid URL scheme: ", scheme.as_str()));
            }
            match host {
                None => Ok(()),
                Some(h) => {
                    if str_eq(h.as_str(), "localhost") {
                        return Err(owned("Access to localhost is denied"));
                    }
                    match parse_ipv4(h.as_str()) {
                        Some(o) => {
                            let a = o[0];
                            let b = o[1];
                            if a == 127 || (a == 0 && b == 0 && o[2] == 0 && o[3] == 0) {
                                Err(owned("Access to local/unspecified IP is denied"))
                            } else if a == 10 || (a == 172 && 16 <= b && b <= 31) || (a == 192
                                && b == 168) || (a == 169 && b == 254) {
                                Err(owned("Access to private network is denied"))
                            } else {
                                Ok(())
                            }
                        },
                        None => Ok(()),
                    }
                },
            }
        },
    }
}

/// Checks a bumper back's download address before it is fetched.
pub fn check_remote_url(url: &str) -> (r: Result<(), String>)
    ensures
        unit_result_view(r) == url_verdict(url_parse(url@)),
{
    let parsed = parse_url(url);
    check_parsed_url(parsed)
}

/// Where an uploaded or downloaded bumper back is recorded, relative to the
/// static directory.
pub fn stored_back_path(file_name: &str) -> (r: String)
    ensures
        r@ == "media/bumper_backs/"@ + file_name@,
{
    concat("media/bumper_backs/", file_name)
}

/// The pieces of a path that name something: neither empty nor `.`.
pub open spec fn named_pieces(parts: Seq<Seq<char>>) -> Seq<Seq<char>>
    decreases parts.len(),
{
    if parts.len() == 0 {
        seq![]
    } else {
        let rest = named_pieces(parts.drop_last());
        let p = parts.last();
        if p.len() == 0 || p == "."@ { rest } else { rest.push(p) }
    }
}

/// The final component of a path (`Path::file_name`): none when it is `..`
/// or when the path names nothing.
pub open spec fn file_name_of(path: Seq<char>) -> Option<Seq<char>> {
    let pieces = named_pieces(split_on(path, '/'));
    if pieces.len() == 0 || pieces.last() == ".."@ { None } else { Some(pieces.last()) }
}

/// Position `i` holds the last `.` of `s`.
pub open spec fn last_dot(s: Seq<char>, i: int) -> bool {
    0 <= i < s.len() && s[i] == '.' && forall|j: int| i < j < s.len() ==> s[j] != '.'
}

/// The extension of a path (`Path::extension`): what follows the last `.` of
/// its file name, unless that dot opens the name or there is none.
pub open spec fn extension_of(path: Seq<char>) -> Option<Seq<char>> {
    match file_name_of(path) {
        Some(f) => name_extension(f),
        None => None,
    }
}

/// The extension of a file name: what follows its last `.`, unless that dot
/// opens the name or there is none.
pub open spec fn name_extension(f: Seq<char>) -> Option<Seq<char>> {
    if exists|i: int| last_dot(f, i) && i > 0 {
        Some(f.skip((choose|i: int| last_dot(f, i)) + 1))
    } else {
        None
    }
}

fn is_dot_piece(p: &[char]) -> (b: bool)
    ensures
        b == (p@ == "."@),
{
    let d = chars_of(".");
    crate::text::chars_eq(p, d.as_slice())
}

/// The final component of a path, as `Path::file_name` finds it.
pub fn path_file_name(path: &str) -> (r: Option<Vec<char>>)
    ensures
        match r {
            Some(v) => file_name_of(path@) == Some(v@),
            None => file_name_of(path@) is None,
        },
{
    let cs = chars_of(path);
    let parts = split_chars(cs.as_slice(), '/');
    let ghost pv = parts@.map_values(|p: Vec<char>| p@);
    let mut last: Option<usize> = None;
    let mut i: usize = 0;
    while i < parts.len()
        invariant
            i <= parts@.len(),
            pv == parts@.map_values(|p: Vec<char>| p@),
            match last {
                Some(k) => k < i && named_pieces(pv.take(i as int)).len() > 0 && named_pieces(pv.take(i as int)).last() == pv[k as int],
                None => named_pieces(pv.take(i as int)).len() == 0,
            },
        decreases parts@.len() - i,
    {
        proof {
            assert(pv.take(i as int + 1).drop_last() =~= pv.take(i as int));
            assert(pv.take(i as int + 1).last() == pv[i as int]);
        }
        if parts[i].len() > 0 && !is_dot_piece(parts[i].as_slice()) {
            last = Some(i);
        }
        i = i + 1;
    }
    assert(pv.take(pv.len() as int) =~= pv);
    assert(pv == split_on(path@, '/'));
    let k = match last {
        Some(k) => k,
        None => {
            return None;
        },
    };
    let dd = chars_of("..");
    if crate::text::chars_eq(parts[k].as_slice(), dd.as_slice()) {
        return None;
    }
    let mut f: Vec<char> = Vec::new();
    crate::text::push_all(&mut f, parts[k].as_slice());
    assert(f@ =~= pv[k as int]);
    Some(f)
}

/// The extension of a path, as `Path::extension` finds it.
pub fn path_extension(path: &str) -> (r: Option<String>)
    ensures
        crate::tts::opt_view(r) == extension_of(path@),
{
    let fv = match path_file_name(path) {
        Some(v) => v,
        None => {
            return None;
        },
    };
    let f = fv.as_slice();
    assert(file_name_of(path@) == Some(f@));
    let n = f.len();
    let mut j: usize = n;
    while j > 0 && f[j - 1] != '.'
        invariant
            j <= n,
            n == f@.len(),
            forall|q: int| j <= q < n ==> f@[q] != '.',
        decreases j,
    {
        j = j - 1;
    }
    if j <= 1 {
        proof {
            assert forall|i: int| !(last_dot(f@, i) && i > 0) by {
                if last_dot(f@, i) && i > 0 {
                    if j == 1 {
                        assert(f@[0] == '.');
                        assert(i == 0 || f@[i] != '.');
                    }
                }
            }
        }
        return None;
    }
    let dot = j - 1;
    proof {
        assert(last_dot(f@, dot as int));
        let c = choose|i: int| last_dot(f@, i);
        assert(last_dot(f@, c));
        if c != dot {
            if c < dot {
                assert(f@[dot as int] == '.');
            } else {
                assert(f@[c] == '.');
            }
        }
        assert(c == dot);
        assert(last_dot(f@, dot as int) && dot > 0);
        assert(exists|i: int| last_dot(f@, i) && i > 0);
    }
    let mut ext: Vec<char> = Vec::new();
    let mut q: usize = j;
    while q < n
        invariant
            j <= q <= n,
            n == f@.len(),
            ext@ == f@.subrange(j as int, q as int),
        decreases n - q,
    {
        ext.push(f[q]);
        q = q + 1;
        assert(ext@ =~= f@.subrange(j as int, q as int));
    }
    assert(ext@ =~= f@.skip(j as int));
    let r = string_from(ext.as_slice());
    proof {
        let fv = f@;
        assert(file_name_of(path@) == Some(fv));
        assert(exists|i: int| last_dot(fv, i) && i > 0);
        assert((choose|i: int| last_dot(fv, i)) == dot);
        assert(name_extension(fv) == Some(fv.skip(dot + 1)));
        assert(extension_of(path@) == Some(fv.skip(dot + 1)));
    }
    Some(r)
}

/// What `str::to_lowercase` makes of `s`.
pub uninterp spec fn lowercase(s: Seq<char>) -> Seq<char>;

/// `str::to_lowercase`: the Unicode lower case of `s`.
#[verifier::external_body]
pub(crate) fn to_lowercase(s: &str) -> (r: String)
    ensures
        r@ == lowercase(s@),
{
    s.to_lowercase()
}

/// The video file extensions accepted for upload.
pub open spec fn video_extension(e: Seq<char>) -> bool {
    e == "mp4"@ || e == "webm"@ || e == "mov"@ || e == "avi"@ || e == "mkv"@
}

/// The name an upload is known by: the name sent with it, else `upload.mp4`.
pub open spec fn upload_name(file_name: Option<Seq<char>>) -> Seq<char> {
    match file_name {
        Some(n) => n,
        None => "upload.mp4"@,
    }
}

/// Whether an uploaded bumper back is accepted: its sniffed type is a
/// video type and its name ends in a video extension, in any case.
pub open spec fn upload_ok(mime: Option<Seq<char>>, file_name: Option<Seq<char>>) -> bool {
    match mime {
        Some(m) => is_prefix("video/"@, m) && video_extension(lowercase(
            match extension_of(upload_name(file_name)) {
                Some(e) => e,
                None => seq![],
            },
        )),
        None => false,
    }
}

/// Checks an uploaded bumper back, given the MIME type sniffed from its
/// contents (`None` when unknown) and the file name sent with it.
pub fn upload_accepted(mime: Option<&str>, file_name: Option<&str>) -> (b: bool)
    ensures
        b == upload_ok(
            match mime {
                Some(m) => Some(m@),
                None => None,
            },
            match file_name {
                Some(n) => Some(n@),
                None => None,
            },
        ),
{
    let m = match mime {
        Some(m) => m,
        None => {
            return false;
        },
    };
    if !str_starts_with(m, "video/") {
        return false;
    }
    let name = match file_name {
        Some(n) => owned(n),
        None => owned("upload.mp4"),
    };
    let ext = match path_extension(name.as_str()) {
        Some(e) => e,
        None => String::new(),
    };
    let lower = to_lowercase(ext.as_str());
    let l = lower.as_str();
    str_eq(l, "mp4") || str_eq(l, "webm") || str_eq(l, "mov") || str_eq(l, "avi") || str_eq(l, "mkv")
}


/// A character that XML escaping leaves as it is.
pub open spec fn markup_free(c: char) -> bool {
    c != '<' && c != '>' && c != '"' && c != '\''
}

proof fn lemma_xml_char_free(c: char)
    ensures
        forall|i: int| 0 <= i < xml_char(c).len() ==> markup_free(#[trigger] xml_char(c)[i]),
{
    reveal_strlit("&amp;");
    reveal_strlit("&lt;");
    reveal_strlit("&gt;");
    reveal_strlit("&quot;");
    reveal_strlit("&apos;");
}

/// Escaped text is safe inside XML markup and attributes: it holds no `<`,
/// `>`, `"` or `'`.
pub proof fn lemma_escaped_is_markup_free(s: Seq<char>)
    ensures
        forall|i: int| 0 <= i < xml_escaped(s).len() ==> markup_free(#[trigger] xml_escaped(s)[i]),
    decreases s.len(),
{
    if s.len() > 0 {
        lemma_escaped_is_markup_free(s.drop_last());
        lemma_xml_char_free(s.last());
        let a = xml_escaped(s.drop_last());
        let b = xml_char(s.last());
        assert forall|i: int| 0 <= i < xml_escaped(s).len() implies markup_free(#[trigger] xml_escaped(s)[i]) by {
            if i < a.len() {
                assert(xml_escaped(s)[i] == a[i]);
            } else {
                assert(xml_escaped(s)[i] == b[i - a.len()]);
            }
        }
    }
}

/// Text without markup characters or `&` is left as it is by escaping.
pub proof fn lemma_plain_text_not_escaped(s: Seq<char>)
    requires
        forall|i: int| 0 <= i < s.len() ==> markup_free(#[trigger] s[i]) && s[i] != '&',
    ensures
        xml_escaped(s) == s,
    decreases s.len(),
{
    if s.len() > 0 {
        assert forall|i: int| 0 <= i < s.drop_last().len() implies markup_free(#[trigger] s.drop_last()[i]) && s.drop_last()[i] != '&' by {
            assert(s.drop_last()[i] == s[i]);
        }
        lemma_plain_text_not_escaped(s.drop_last());
        assert(markup_free(s[s.len() - 1]));
        assert(xml_escaped(s) =~= s);
    }
}

/// Replacing a pattern that does not occur changes nothing; in particular a
/// template without placeholders renders as it is.
pub proof fn lemma_replace_absent(s: Seq<char>, pat: Seq<char>, rep: Seq<char>)
    requires
        forall|i: int| 0 <= i <= s.len() - pat.len() ==> !is_prefix(pat, #[trigger] s.skip(i)),
    ensures
        replaced(s, pat, rep) == s,
    decreases s.len(),
{
    if pat.len() > 0 && s.len() > 0 {
        assert(s.skip(0) =~= s);
        if pat.len() <= s.len() {
            assert(!is_prefix(pat, s.skip(0)));
        }
        assert forall|i: int| 0 <= i <= s.drop_first().len() - pat.len() implies !is_prefix(pat, #[trigger] s.drop_first().skip(i)) by {
            assert(s.drop_first().skip(i) =~= s.skip(i + 1));
        }
        lemma_replace_absent(s.drop_first(), pat, rep);
        assert(seq![s[0]] + s.drop_first() =~= s);
    }
}

} // verus!
