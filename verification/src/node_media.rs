//! The node's media tools: the player it drives over IPC, the browser it
//! captures web pages with, and the names of cached captures.
use vstd::prelude::*;
use crate::text::{concat, owned, string_from};
use vstd::string::StringSliceAdditionalSpecFns;

verus! {

/// A connection point to an mpv player's IPC socket.
pub struct MpvClient {
    socket_path: String,
}

impl MpvClient {
    pub closed spec fn socket(&self) -> Seq<char> {
        self.socket_path@
    }

    pub fn new(socket_path: String) -> (r: Self)
        ensures
            r.socket() == socket_path@,
    {
        MpvClient { socket_path }
    }

    /// The socket the player listens on.
    pub fn socket_path(&self) -> (r: &str)
        ensures
            r@ == self.socket(),
    {
        self.socket_path.as_str()
    }
}

/// The arguments of mpv's `loadfile` command: the file replacing what plays,
/// and, when there are options, the insertion index 0 and the options
/// (`start=<secs>` when a start is given, `loop-file=inf` when looping)
/// joined by commas.
pub open spec fn loadfile_args(path: Seq<char>, start: Option<Seq<char>>, loop_enabled: Option<bool>) -> Seq<Seq<char>> {
    let opts: Seq<Seq<char>> = match start {
        Some(s) => seq!["start="@ + s],
        None => seq![],
    };
    let opts = if loop_enabled == Some(true) { opts.push("loop-file=inf"@) } else { opts };
    let base = seq!["loadfile"@, path, "replace"@];
    if opts.len() == 0 {
        base
    } else {
        base.push("0"@).push(crate::text::join(opts, ","@))
    }
}

/// Builds the `loadfile` arguments; `start` is the start time already
/// written out in seconds.
pub fn play_args(path: &str, start: Option<&str>, loop_enabled: Option<bool>) -> (r: Vec<String>)
    ensures
        crate::text::views(r@) == loadfile_args(
            path@,
            match start {
                Some(s) => Some(s@),
                None => None,
            },
            loop_enabled,
        ),
{
    let mut opts: Vec<String> = Vec::new();
    match start {
        Some(s) => {
            opts.push(concat("start=", s));
        },
        None => {},
    }
    if loop_enabled == Some(true) {
        opts.push(owned("loop-file=inf"));
    }
    let ghost want = loadfile_args(
        path@,
        match start {
            Some(s) => Some(s@),
            None => None,
        },
        loop_enabled,
    );
    let mut args: Vec<String> = Vec::new();
    args.push(owned("loadfile"));
    args.push(owned(path));
    args.push(owned("replace"));
    if opts.len() > 0 {
        args.push(owned("0"));
        let mut joined: Vec<char> = Vec::new();
        crate::text::push_joined(&mut joined, opts.as_slice(), ",");
        args.push(string_from(joined.as_slice()));
    }
    proof {
        let ov = crate::text::views(opts@);
        let o: Seq<Seq<char>> = match start {
            Some(s) => seq!["start="@ + s@],
            None => seq![],
        };
        let o = if loop_enabled == Some(true) { o.push("loop-file=inf"@) } else { o };
        assert(ov =~= o);
        assert(crate::text::views(args@) =~= want);
    }
    args
}

/// The browsers tried for web captures, in order.
pub open spec fn chrome_candidate(i: int) -> Seq<char> {
    if i == 0 {
        "chromium"@
    } else if i == 1 {
        "chromium-browser"@
    } else if i == 2 {
        "google-chrome"@
    } else {
        "google-chrome-stable"@
    }
}

/// The browser used for captures: the first candidate found on the search
/// path (`on_path[i]` for candidate `i`), else `chromium`.
pub fn find_chrome_binary(on_path: &[bool]) -> (r: String)
    ensures
        (exists|i: int| 0 <= i < 4 && i < on_path@.len() && on_path@[i]) ==> exists|i: int|
            0 <= i < 4 && i < on_path@.len() && on_path@[i] && r@ == chrome_candidate(i)
                && forall|j: int| 0 <= j < i ==> !on_path@[j],
        !(exists|i: int| 0 <= i < 4 && i < on_path@.len() && on_path@[i]) ==> r@ == "chromium"@,
{
    let names = ["chromium", "chromium-browser", "google-chrome", "google-chrome-stable"];
    let mut i: usize = 0;
    while i < 4 && i < on_path.len()
        invariant
            i <= 4,
            names@ == seq!["chromium", "chromium-browser", "google-chrome", "google-chrome-stable"],
            forall|j: int| 0 <= j < i ==> j < on_path@.len() && !on_path@[j],
        decreases 4 - i,
    {
        if on_path[i] {
            let r = owned(names[i]);
            assert(names@[i as int]@ == chrome_candidate(i as int));
            return r;
        }
        i = i + 1;
    }
    owned("chromium")
}

/// The SHA-256 digest that `sha2::Sha256` computes over `data`.
pub uninterp spec fn sha256_of(data: Seq<u8>) -> Seq<u8>;

/// Hashes `data` with `sha2::Sha256`; the digest is 32 bytes long.
#[verifier::external_body]
fn sha256(data: &[u8]) -> (r: Vec<u8>)
    ensures
        r@ == sha256_of(data@),
        r@.len() == 32,
{
    <sha2::Sha256 as sha2::Digest>::digest(data).to_vec()
}

/// The lowercase hexadecimal digit for `d < 16`.
pub open spec fn hex_digit(d: int) -> char {
    if d < 10 { ((d + 48) as u8) as char } else { ((d + 87) as u8) as char }
}

/// Bytes written as two lowercase hexadecimal digits each.
pub open spec fn hex(bytes: Seq<u8>) -> Seq<char>
    decreases bytes.len(),
{
    if bytes.len() == 0 {
        seq![]
    } else {
        hex(bytes.drop_last()) + seq![hex_digit(bytes.last() as int / 16), hex_digit(bytes.last() as int % 16)]
    }
}

fn hex_char(d: u8) -> (c: char)
    requires
        d < 16,
    ensures
        c == hex_digit(d as int),
{
    if d < 10 { (d + 48) as char } else { (d + 87) as char }
}

/// The first 16 hexadecimal digits of the SHA-256 of the URL's UTF-8 bytes:
/// the name a web capture of it is cached under.
pub fn url_hash(url: &str) -> (r: String)
    ensures
        r@ == hex(sha256_of(url.spec_bytes())).take(16),
        r@.len() == 16,
{
    let digest = sha256(url.as_bytes());
    let mut out: Vec<char> = Vec::new();
    let mut i: usize = 0;
    while i < 8
        invariant
            i <= 8,
            digest@.len() == 32,
            out@ == hex(digest@.take(i as int)),
        decreases 8 - i,
    {
        let b = digest[i];
        out.push(hex_char(b / 16));
        out.push(hex_char(b % 16));
        proof {
            assert(digest@.take(i as int + 1).drop_last() =~= digest@.take(i as int));
            assert(digest@.take(i as int + 1).last() == b);
        }
        i = i + 1;
    }
    proof {
        lemma_hex_prefix(digest@, 8);
        lemma_hex_len(digest@);
    }
    string_from(out.as_slice())
}

proof fn lemma_hex_len(bytes: Seq<u8>)
    ensures
        hex(bytes).len() == 2 * bytes.len(),
    decreases bytes.len(),
{
    if bytes.len() > 0 {
        lemma_hex_len(bytes.drop_last());
    }
}

/// The hex of a prefix is a prefix of the hex.
proof fn lemma_hex_prefix(bytes: Seq<u8>, k: int)
    requires
        0 <= k <= bytes.len(),
    ensures
        hex(bytes).take(2 * k) == hex(bytes.take(k)),
    decreases bytes.len(),
{
    lemma_hex_len(bytes.take(k));
    if k < bytes.len() {
        lemma_hex_prefix(bytes.drop_last(), k);
        assert(bytes.drop_last().take(k) =~= bytes.take(k));
        lemma_hex_len(bytes.drop_last());
        assert(hex(bytes).take(2 * k) =~= hex(bytes.drop_last()).take(2 * k));
    } else {
        assert(bytes.take(k) =~= bytes);
        lemma_hex_len(bytes);
        assert(hex(bytes).take(2 * k) =~= hex(bytes));
    }
}

/// How long a web capture stays fresh, in seconds.
pub const CACHE_MAX_AGE_SECS: u64 = 300;

/// Whether a cached capture of the given age (seconds, when known) is reused.
pub fn capture_is_fresh(age_secs: Option<u64>) -> (b: bool)
    ensures
        b == (age_secs matches Some(a) && a < CACHE_MAX_AGE_SECS),
{
    match age_secs {
        Some(a) => a < CACHE_MAX_AGE_SECS,
        None => false,
    }
}

} // verus!
