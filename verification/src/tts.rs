//! Speech synthesis: which engine a provider selects, and the text and audio
//! codes that pass through the engines.
use vstd::prelude::*;
use crate::models::AiProvider;
use crate::text::{
    chars_eq, chars_of, concat, owned, is_white_space, is_whitespace, join, push_all, push_str,
    string_from, trim, trim_chars, str_eq,
};

verus! {

/// Voice settings for one synthesised break.
pub struct TtsConfig {
    pub voice_name: Option<String>,
    pub emotion: Option<String>,
    pub speech_modifier: Option<String>,
}

/// The speech engines a provider can stand for.
#[derive(Debug, PartialEq, Eq, Structural)]
pub enum TtsEngine {
    Orpheus,
    Gemini,
    ElevenLabs,
}

/// The engine a provider type selects; other types are refused.
pub open spec fn engine_for(t: Seq<char>) -> Option<TtsEngine> {
    if t == "orpheus"@ {
        Some(TtsEngine::Orpheus)
    } else if t == "gemini"@ || t == "google"@ || t == "gemini-tts"@ {
        Some(TtsEngine::Gemini)
    } else if t == "elevenlabs"@ {
        Some(TtsEngine::ElevenLabs)
    } else {
        None
    }
}

/// Routes a provider to its speech engine, or names the unsupported type.
pub fn tts_engine(provider: &AiProvider) -> (r: Result<TtsEngine, String>)
    ensures
        engine_for(provider.provider_type@) matches Some(e) ==> r == Ok::<TtsEngine, String>(e),
        engine_for(provider.provider_type@) is None ==> (r matches Err(m) && m@
            == "Unsupported TTS provider type: "@ + provider.provider_type@),
{
    let t = provider.provider_type.as_str();
    if str_eq(t, "orpheus") {
        Ok(TtsEngine::Orpheus)
    } else if str_eq(t, "gemini") || str_eq(t, "google") || str_eq(t, "gemini-tts") {
        Ok(TtsEngine::Gemini)
    } else if str_eq(t, "elevenlabs") {
        Ok(TtsEngine::ElevenLabs)
    } else {
        Err(concat("Unsupported TTS provider type: ", t))
    }
}

/// The completion endpoint an Orpheus provider is reached at.
pub fn orpheus_endpoint(provider: &AiProvider) -> (r: String)
    ensures
        r@ == (match &provider.endpoint_url {
            Some(u) => u@,
            None => "http://127.0.0.1:1234/v1/completions"@,
        }),
{
    match &provider.endpoint_url {
        Some(u) => owned(u.as_str()),
        None => owned("http://127.0.0.1:1234/v1/completions"),
    }
}

/// The API key a Gemini voice needs; a provider without one is refused.
pub fn gemini_api_key(provider: &AiProvider) -> (r: Result<String, String>)
    ensures
        provider.api_key matches Some(k) ==> (r matches Ok(s) && s@ == k@),
        provider.api_key is None ==> (r matches Err(m) && m@ == "Gemini TTS provider API key is missing"@),
{
    match &provider.api_key {
        Some(k) => Ok(owned(k.as_str())),
        None => Err(owned("Gemini TTS provider API key is missing")),
    }
}

/// The Gemini speech request address for `api_key`.
pub fn gemini_request_url(api_key: &str) -> (r: String)
    ensures
        r@ == "https://generativelanguage.googleapis.com/v1beta/models/gemini-2.5-flash-preview-tts:generateContent?key="@
            + api_key@,
{
    concat(
        "https://generativelanguage.googleapis.com/v1beta/models/gemini-2.5-flash-preview-tts:generateContent?key=",
        api_key,
    )
}

/// The voice name, or `default` when none is configured.
pub fn voice_or(config: &TtsConfig, default: &str) -> (r: String)
    ensures
        r@ == (match &config.voice_name {
            Some(v) => v@,
            None => default@,
        }),
{
    match &config.voice_name {
        Some(v) => owned(v.as_str()),
        None => owned(default),
    }
}

/// The style phrases of a Gemini request: the emotion as "<emotion> voice",
/// then the speech modifier unless it is blank.
pub open spec fn style_parts(emotion: Option<Seq<char>>, modifier: Option<Seq<char>>) -> Seq<Seq<char>> {
    let a: Seq<Seq<char>> = match emotion {
        Some(e) => seq![e + " voice"@],
        None => seq![],
    };
    match modifier {
        Some(m) => if trim(m).len() > 0 { a.push(m) } else { a },
        None => a,
    }
}

/// The text Gemini is asked to speak.
pub open spec fn styled_text(text: Seq<char>, parts: Seq<Seq<char>>) -> Seq<char> {
    if parts.len() == 0 {
        text
    } else {
        "Say with a "@ + join(parts, ", "@) + ": "@ + text
    }
}

pub open spec fn opt_view(o: Option<String>) -> Option<Seq<char>> {
    match o {
        Some(s) => Some(s@),
        None => None,
    }
}

/// Prefixes the text with the style wanted by the configuration.
pub fn gemini_styled_text(text: &str, config: &TtsConfig) -> (r: String)
    ensures
        r@ == styled_text(text@, style_parts(opt_view(config.emotion), opt_view(config.speech_modifier))),
{
    let mut parts: Vec<String> = Vec::new();
    match &config.emotion {
        Some(e) => {
            parts.push(concat(e.as_str(), " voice"));
        },
        None => {},
    }
    match &config.speech_modifier {
        Some(m) => {
            let mc = chars_of(m.as_str());
            let t = trim_chars(mc.as_slice());
            if t.len() > 0 {
                parts.push(owned(m.as_str()));
            }
        },
        None => {},
    }
    let ghost want = style_parts(opt_view(config.emotion), opt_view(config.speech_modifier));
    assert(crate::text::views(parts@) =~= want);
    if parts.len() == 0 {
        return owned(text);
    }
    let mut out: Vec<char> = Vec::new();
    push_str(&mut out, "Say with a ");
    crate::text::push_joined(&mut out, parts.as_slice(), ", ");
    push_str(&mut out, ": ");
    push_str(&mut out, text);
    string_from(out.as_slice())
}

/// The sound tags that Orpheus can voice.
pub open spec fn allowed_tag(t: Seq<char>) -> bool {
    t == "giggle"@ || t == "laugh"@ || t == "chuckle"@ || t == "sigh"@ || t == "cough"@
        || t == "sniffle"@ || t == "groan"@ || t == "yawn"@ || t == "gasp"@
}

fn is_allowed_tag(t: &[char]) -> (b: bool)
    ensures
        b == allowed_tag(t@),
{
    let tags = ["giggle", "laugh", "chuckle", "sigh", "cough", "sniffle", "groan", "yawn", "gasp"];
    let mut i: usize = 0;
    while i < 9
        invariant
            i <= 9,
            tags@ == seq!["giggle", "laugh", "chuckle", "sigh", "cough", "sniffle", "groan", "yawn", "gasp"],
            forall|j: int| 0 <= j < i ==> t@ != (#[trigger] tags@[j])@,
        decreases 9 - i,
    {
        let cs = chars_of(tags[i]);
        if chars_eq(t, cs.as_slice()) {
            return true;
        }
        i = i + 1;
    }
    assert(!allowed_tag(t@)) by {
        assert(t@ != tags@[0]@);
        assert(t@ != tags@[1]@);
        assert(t@ != tags@[2]@);
        assert(t@ != tags@[3]@);
        assert(t@ != tags@[4]@);
        assert(t@ != tags@[5]@);
        assert(t@ != tags@[6]@);
        assert(t@ != tags@[7]@);
        assert(t@ != tags@[8]@);
    }
    false
}

/// The state of the tag filter: text so far, an open tag's name, and whether a tag is open.
pub open spec fn filter_step(st: (Seq<char>, Seq<char>, bool), c: char) -> (Seq<char>, Seq<char>, bool) {
    let (out, tag, open) = st;
    if open {
        if c == '>' {
            (if allowed_tag(tag) { out + seq!['<'] + tag + seq!['>'] } else { out }, seq![], false)
        } else if is_white_space(c) {
            (out + seq!['<'] + tag + seq![c], seq![], false)
        } else {
            (out, tag.push(c), true)
        }
    } else if c == '<' {
        (out, tag, true)
    } else {
        (out.push(c), tag, false)
    }
}

pub open spec fn filter_run(s: Seq<char>) -> (Seq<char>, Seq<char>, bool)
    decreases s.len(),
{
    if s.len() == 0 {
        (seq![], seq![], false)
    } else {
        filter_step(filter_run(s.drop_last()), s.last())
    }
}

/// `s` with every `<tag>` that Orpheus cannot voice removed; a `<` followed by
/// white space, or left open at the end, is kept as text.
pub open spec fn sanitized(s: Seq<char>) -> Seq<char> {
    let st = filter_run(s);
    if st.2 { st.0 + seq!['<'] + st.1 } else { st.0 }
}

/// Removes the angle-bracket tags that Orpheus cannot voice.
pub fn sanitize_orpheus_text(text: &str) -> (r: String)
    ensures
        r@ == sanitized(text@),
{
    let cs = chars_of(text);
    let mut out: Vec<char> = Vec::new();
    let mut tag: Vec<char> = Vec::new();
    let mut open = false;
    let mut i: usize = 0;
    while i < cs.len()
        invariant
            i <= cs@.len(),
            cs@ == text@,
            (out@, tag@, open) == filter_run(cs@.take(i as int)),
        decreases cs@.len() - i,
    {
        let c = cs[i];
        proof {
            assert(cs@.take(i as int + 1).drop_last() =~= cs@.take(i as int));
        }
        if open {
            if c == '>' {
                if is_allowed_tag(tag.as_slice()) {
                    out.push('<');
                    push_all(&mut out, tag.as_slice());
                    out.push('>');
                }
                open = false;
                tag = Vec::new();
            } else if is_whitespace(c) {
                out.push('<');
                push_all(&mut out, tag.as_slice());
                out.push(c);
                open = false;
                tag = Vec::new();
            } else {
                tag.push(c);
            }
        } else if c == '<' {
            open = true;
        } else {
            out.push(c);
        }
        proof {
            assert((out@, tag@, open) =~= filter_run(cs@.take(i as int + 1)));
        }
        i = i + 1;
    }
    assert(cs@.take(cs@.len() as int) =~= cs@);
    if open {
        out.push('<');
        push_all(&mut out, tag.as_slice());
    }
    string_from(out.as_slice())
}

/// The completion prompt that asks Orpheus to speak `text` in `voice`.
pub fn orpheus_prompt(voice: &str, text: &str) -> (r: String)
    ensures
        r@ == "<|audio|>"@ + voice@ + ": "@ + sanitized(text@) + "<|eot_id|>"@,
{
    let clean = sanitize_orpheus_text(text);
    let mut out: Vec<char> = Vec::new();
    push_str(&mut out, "<|audio|>");
    push_str(&mut out, voice);
    push_str(&mut out, ": ");
    push_str(&mut out, clean.as_str());
    push_str(&mut out, "<|eot_id|>");
    string_from(out.as_slice())
}

/// The audio codes split into the three SNAC layers: of each full frame of
/// seven codes, code 0 goes to the first layer, codes 1 and 4 to the second,
/// and codes 2, 3, 5 and 6 to the third. A trailing partial frame is dropped.
pub open spec fn snac_split(ids: Seq<i32>) -> (Seq<i32>, Seq<i32>, Seq<i32>)
    decreases ids.len(),
{
    if ids.len() < 7 {
        (seq![], seq![], seq![])
    } else {
        let (a, b, c) = snac_split(ids.skip(7));
        (
            seq![ids[0]] + a,
            seq![ids[1], ids[4]] + b,
            seq![ids[2], ids[3], ids[5], ids[6]] + c,
        )
    }
}

proof fn lemma_snac_split_append(ids: Seq<i32>, k: int)
    requires
        0 <= k,
        7 * k + 7 <= ids.len(),
    ensures
        ({
            let (a0, b0, c0) = snac_split(ids.take(7 * k));
            let (a1, b1, c1) = snac_split(ids.take(7 * k + 7));
            let f = ids.subrange(7 * k, 7 * k + 7);
            &&& a1 == a0 + seq![f[0]]
            &&& b1 == b0 + seq![f[1], f[4]]
            &&& c1 == c0 + seq![f[2], f[3], f[5], f[6]]
        }),
    decreases k,
{
    let t0 = ids.take(7 * k);
    let t1 = ids.take(7 * k + 7);
    if k == 0 {
        assert(t1.skip(7).len() == 0);
        assert(snac_split(t0) == (Seq::<i32>::empty(), Seq::<i32>::empty(), Seq::<i32>::empty()));
        assert(snac_split(t1.skip(7)) == (Seq::<i32>::empty(), Seq::<i32>::empty(), Seq::<i32>::empty()));
        let (a1, b1, c1) = snac_split(t1);
        assert(a1 =~= seq![t1[0]]);
        assert(b1 =~= seq![t1[1], t1[4]]);
        assert(c1 =~= seq![t1[2], t1[3], t1[5], t1[6]]);
    } else {
        let rest = ids.skip(7);
        lemma_snac_split_append(rest, k - 1);
        assert(t0.skip(7) =~= rest.take(7 * (k - 1)));
        assert(t1.skip(7) =~= rest.take(7 * (k - 1) + 7));
        assert(ids.subrange(7 * k, 7 * k + 7) =~= rest.subrange(7 * (k - 1), 7 * (k - 1) + 7));
        let (a0, b0, c0) = snac_split(t0);
        let (a1, b1, c1) = snac_split(t1);
        let (ra0, rb0, rc0) = snac_split(rest.take(7 * (k - 1)));
        let (ra1, rb1, rc1) = snac_split(rest.take(7 * (k - 1) + 7));
        assert(a0 == seq![t0[0]] + ra0);
        assert(a1 == seq![t1[0]] + ra1);
        let f = ids.subrange(7 * k, 7 * k + 7);
        assert(a1 =~= a0 + seq![f[0]]);
        assert(b1 =~= b0 + seq![f[1], f[4]]);
        assert(c1 =~= c0 + seq![f[2], f[3], f[5], f[6]]);
    }
}

proof fn lemma_snac_split_tail(ids: Seq<i32>, k: int)
    requires
        0 <= k,
        7 * k <= ids.len() < 7 * k + 7,
    ensures
        snac_split(ids) == snac_split(ids.take(7 * k)),
    decreases k,
{
    if k == 0 {
        assert(ids.take(0).len() == 0);
    } else {
        let rest = ids.skip(7);
        lemma_snac_split_tail(rest, k - 1);
        assert(ids.take(7 * k).skip(7) =~= rest.take(7 * (k - 1)));
        assert(ids.take(7 * k)[0] == ids[0]);
        assert(ids.take(7 * k)[1] == ids[1]);
        assert(ids.take(7 * k)[2] == ids[2]);
        assert(ids.take(7 * k)[3] == ids[3]);
        assert(ids.take(7 * k)[4] == ids[4]);
        assert(ids.take(7 * k)[5] == ids[5]);
        assert(ids.take(7 * k)[6] == ids[6]);
    }
}

/// Splits the audio codes into the three SNAC layers (see `snac_split`).
pub fn snac_layers(ids: &[i32]) -> (r: (Vec<i32>, Vec<i32>, Vec<i32>))
    ensures
        (r.0@, r.1@, r.2@) == snac_split(ids@),
{
    let mut a: Vec<i32> = Vec::new();
    let mut b: Vec<i32> = Vec::new();
    let mut c: Vec<i32> = Vec::new();
    let n = ids.len();
    let mut i: usize = 0;
    while n - i >= 7
        invariant
            n == ids@.len(),
            i % 7 == 0,
            i <= n,
            (a@, b@, c@) == snac_split(ids@.take(i as int)),
        decreases n - i,
    {
        proof {
            lemma_snac_split_append(ids@, i as int / 7);
        }
        a.push(ids[i]);
        b.push(ids[i + 1]);
        b.push(ids[i + 4]);
        c.push(ids[i + 2]);
        c.push(ids[i + 3]);
        c.push(ids[i + 5]);
        c.push(ids[i + 6]);
        proof {
            let f = ids@.subrange(i as int, i as int + 7);
            assert(a@ =~= snac_split(ids@.take(i as int)).0 + seq![f[0]]);
            assert(b@ =~= snac_split(ids@.take(i as int)).1 + seq![f[1], f[4]]);
            assert(c@ =~= snac_split(ids@.take(i as int)).2 + seq![f[2], f[3], f[5], f[6]]);
        }
        i = i + 7;
    }
    proof {
        lemma_snac_split_tail(ids@, i as int / 7);
    }
    (a, b, c)
}

/// The value of a string of decimal digits.
pub open spec fn digits_value(s: Seq<char>) -> int
    decreases s.len(),
{
    if s.len() == 0 {
        0
    } else {
        digits_value(s.drop_last()) * 10 + (s.last() as int - '0' as int)
    }
}

pub open spec fn all_digits(s: Seq<char>) -> bool {
    forall|i: int| 0 <= i < s.len() ==> '0' <= #[trigger] s[i] <= '9'
}

/// What `str::parse::<i32>` gives for `s`: an optional sign, at least one
/// digit and nothing else, within the range of `i32`.
pub open spec fn parsed_i32(s: Seq<char>) -> Option<int> {
    let neg = s.len() > 0 && s[0] == '-';
    let body = if s.len() > 0 && (s[0] == '-' || s[0] == '+') { s.drop_first() } else { s };
    if body.len() == 0 || !all_digits(body) {
        None
    } else {
        let v = if neg { -digits_value(body) } else { digits_value(body) };
        if i32::MIN <= v <= i32::MAX { Some(v) } else { None }
    }
}

proof fn lemma_digits_grow(s: Seq<char>, j: int, k: int)
    requires
        0 <= j <= k <= s.len(),
        all_digits(s),
    ensures
        0 <= digits_value(s.take(j)) <= digits_value(s.take(k)),
    decreases k - j,
{
    if j == k {
        lemma_digits_nonneg(s.take(j));
    } else {
        lemma_digits_grow(s, j, k - 1);
        assert(s.take(k).drop_last() =~= s.take(k - 1));
        assert(s.take(k).last() == s[k - 1]);
    }
}

proof fn lemma_digits_nonneg(s: Seq<char>)
    requires
        all_digits(s),
    ensures
        digits_value(s) >= 0,
    decreases s.len(),
{
    if s.len() > 0 {
        assert(all_digits(s.drop_last())) by {
            assert forall|i: int| 0 <= i < s.drop_last().len() implies '0' <= #[trigger] s.drop_last()[i] <= '9' by {
                assert(s.drop_last()[i] == s[i]);
            }
        }
        lemma_digits_nonneg(s.drop_last());
        assert('0' <= s[s.len() - 1] <= '9');
    }
}

/// `str::parse::<i32>` on characters.
pub fn parse_i32(s: &[char]) -> (r: Option<i32>)
    ensures
        r matches Some(v) ==> parsed_i32(s@) == Some(v as int),
        r is None ==> parsed_i32(s@) is None,
{
    let n = s.len();
    let mut start: usize = 0;
    let mut neg = false;
    if n > 0 && (s[0] == '-' || s[0] == '+') {
        start = 1;
        neg = s[0] == '-';
    }
    let ghost body = if s@.len() > 0 && (s@[0] == '-' || s@[0] == '+') { s@.drop_first() } else { s@ };
    assert(body =~= s@.skip(start as int));
    if start == n {
        return None;
    }
    let mut acc: i64 = 0;
    let mut i: usize = start;
    while i < n
        invariant
            start <= i <= n,
            n == s@.len(),
            body == s@.skip(start as int),
            body == (if s@.len() > 0 && (s@[0] == '-' || s@[0] == '+') { s@.drop_first() } else { s@ }),
            neg == (s@.len() > 0 && s@[0] == '-'),
            forall|k: int| 0 <= k < i - start ==> '0' <= #[trigger] body[k] <= '9',
            acc == digits_value(body.take(i - start)),
            0 <= acc <= 2147483648,
        decreases n - i,
    {
        let c = s[i];
        if c < '0' || c > '9' {
            assert(body[i - start] == c);
            assert(!all_digits(body));
            return None;
        }
        let d = (c as u32 - '0' as u32) as i64;
        proof {
            assert(body.take(i - start + 1).drop_last() =~= body.take(i - start));
            assert(body.take(i - start + 1).last() == c);
        }
        let next = acc * 10 + d;
        assert(next == digits_value(body.take(i - start + 1)));
        i = i + 1;
        if next > 2147483648 {
            proof {
                assert(all_digits(body.take(i - start))) by {
                    assert forall|k: int| 0 <= k < body.take(i - start).len() implies '0' <= #[trigger] body.take(i - start)[k] <= '9' by {
                        assert(body.take(i - start)[k] == body[k]);
                    }
                }
                if all_digits(body) {
                    lemma_digits_grow(body, i - start, body.len() as int);
                    assert(body.take(body.len() as int) =~= body);
                    assert(digits_value(body) > 2147483648);
                }
            }
            return None;
        }
        acc = next;
    }
    assert(body.take(n - start) =~= body);
    assert(all_digits(body));
    if neg {
        let v = -acc;
        Some(v as i32)
    } else {
        if acc > 2147483647 {
            return None;
        }
        Some(acc as i32)
    }
}

/// The marker that opens an Orpheus audio token.
pub open spec fn token_marker() -> Seq<char> {
    "<custom_token_"@
}

pub open spec fn marker_at(t: Seq<char>, i: int) -> bool {
    0 <= i && i + token_marker().len() <= t.len() && t.subrange(i, i + token_marker().len()) == token_marker()
}

/// The last place where the marker starts.
pub open spec fn last_marker(t: Seq<char>, i: int) -> bool {
    marker_at(t, i) && forall|j: int| i < j ==> !#[trigger] marker_at(t, j)
}

/// The number in the last `<custom_token_N>` of a streamed token text, if
/// the text (trimmed) ends with such a token and `N` parses as an `i32`.
pub open spec fn audio_token_number(text: Seq<char>) -> Option<int> {
    let t = trim(text);
    if exists|i: int| marker_at(t, i) {
        let i = choose|i: int| last_marker(t, i);
        let sub = t.skip(i);
        if sub.last() == '>' {
            parsed_i32(sub.subrange(token_marker().len() as int, sub.len() - 1))
        } else {
            None
        }
    } else {
        None
    }
}

/// The audio code carried by a streamed token, given how many codes came
/// before it: the token's number less 10 and less 4096 for each position in
/// the current frame of seven. Negative values are not codes.
pub open spec fn audio_code_of(text: Seq<char>, count: int) -> Option<int> {
    match audio_token_number(text) {
        Some(n) => {
            let id = n - 10 - (count % 7) * 4096;
            if id >= 0 { Some(id) } else { None }
        },
        None => None,
    }
}

/// Reads the audio code from one streamed token text.
pub fn audio_code(token_text: &str, token_count: i32) -> (r: Option<i32>)
    requires
        token_count >= 0,
        audio_token_number(token_text@) matches Some(n) ==> n - 10 - (token_count % 7) * 4096 >= i32::MIN,
    ensures
        r matches Some(v) ==> audio_code_of(token_text@, token_count as int) == Some(v as int),
        r is None ==> audio_code_of(token_text@, token_count as int) is None,
{
    let cs = chars_of(token_text);
    let t = trim_chars(cs.as_slice());
    let marker = chars_of("<custom_token_");
    proof {
        reveal_strlit("<custom_token_");
    }
    let ml = marker.len();
    assert(ml == 14);
    let n = t.len();
    if n < ml {
        assert forall|i: int| !marker_at(t@, i) by {}
        return None;
    }
    let mut k: usize = n - ml + 1;
    let mut found: Option<usize> = None;
    while k > 0 && found.is_none()
        invariant
            k <= n - ml + 1,
            n == t@.len(),
            ml == token_marker().len(),
            marker@ == token_marker(),
            found is None ==> forall|j: int| k <= j ==> !#[trigger] marker_at(t@, j),
            found matches Some(st) ==> last_marker(t@, st as int),
        decreases k,
    {
        let j = k - 1;
        let mut same = true;
        let mut m: usize = 0;
        while m < ml
            invariant
                m <= ml,
                j + ml <= n,
                n == t@.len(),
                ml == marker@.len(),
                same == forall|q: int| 0 <= q < m ==> t@[j + q] == marker@[q],
            decreases ml - m,
        {
            if t[j + m] != marker[m] {
                same = false;
            }
            m = m + 1;
        }
        if same {
            assert(t@.subrange(j as int, j + ml) =~= marker@);
            found = Some(j);
            assert(last_marker(t@, j as int));
        } else {
            assert(!marker_at(t@, j as int)) by {
                if marker_at(t@, j as int) {
                    assert forall|q: int| 0 <= q < ml implies t@[j + q] == marker@[q] by {
                        assert(t@.subrange(j as int, j + ml)[q] == t@[j + q]);
                    }
                }
            }
        }
        k = j;
    }
    let start = match found {
        Some(st) => st,
        None => {
            return None;
        },
    };
    proof {
        let c = choose|i: int| last_marker(t@, i);
        assert(last_marker(t@, start as int));
        assert(last_marker(t@, c));
        if c != start {
            if c < start {
                assert(!marker_at(t@, start as int));
            } else {
                assert(!marker_at(t@, c));
            }
        }
    }
    if t[n - 1] != '>' {
        assert(t@.skip(start as int).last() == t@[n - 1]);
        return None;
    }
    let mut digits: Vec<char> = Vec::new();
    let mut q: usize = start + ml;
    while q < n - 1
        invariant
            start + ml <= q <= n - 1,
            n == t@.len(),
            digits@ == t@.subrange(start + ml, q as int),
        decreases n - 1 - q,
    {
        digits.push(t[q]);
        q = q + 1;
        assert(digits@ =~= t@.subrange(start + ml, q as int));
    }
    proof {
        let sub = t@.skip(start as int);
        assert(sub.last() == t@[n - 1]);
        assert(sub.subrange(ml as int, sub.len() - 1) =~= digits@);
    }
    match parse_i32(digits.as_slice()) {
        Some(num) => {
            let id: i64 = num as i64 - 10 - ((token_count % 7) as i64) * 4096;
            if id >= 0 {
                Some(id as i32)
            } else {
                None
            }
        },
        None => None,
    }
}


proof fn lemma_plain_run(s: Seq<char>)
    requires
        forall|i: int| 0 <= i < s.len() ==> #[trigger] s[i] != '<',
    ensures
        filter_run(s) == (s, Seq::<char>::empty(), false),
    decreases s.len(),
{
    if s.len() > 0 {
        assert forall|i: int| 0 <= i < s.drop_last().len() implies #[trigger] s.drop_last()[i] != '<' by {
            assert(s.drop_last()[i] == s[i]);
        }
        lemma_plain_run(s.drop_last());
        assert(s[s.len() - 1] != '<');
        assert(s.drop_last().push(s.last()) =~= s);
    }
}

/// Text without tags reaches Orpheus unchanged.
pub proof fn lemma_plain_text_kept(s: Seq<char>)
    requires
        forall|i: int| 0 <= i < s.len() ==> #[trigger] s[i] != '<',
    ensures
        sanitized(s) == s,
{
    lemma_plain_run(s);
}

/// The layers hold one, two and four codes per full frame of seven.
pub proof fn lemma_snac_sizes(ids: Seq<i32>)
    ensures
        snac_split(ids).0.len() == ids.len() / 7,
        snac_split(ids).1.len() == 2 * (ids.len() / 7),
        snac_split(ids).2.len() == 4 * (ids.len() / 7),
    decreases ids.len(),
{
    if ids.len() >= 7 {
        lemma_snac_sizes(ids.skip(7));
        assert(ids.skip(7).len() / 7 == ids.len() / 7 - 1);
    }
}

/// One line of the completion stream Orpheus answers with.
#[derive(Debug, PartialEq, Eq, Structural)]
pub enum StreamLine {
    /// `data: [DONE]`: the stream has ended.
    Done,
    /// `data: ` followed by a JSON chunk.
    Data,
    /// Anything else.
    Ignored,
}

/// How a stream line (trimmed) is read: the text after `data: `, if any.
pub open spec fn stream_payload(line: Seq<char>) -> Option<Seq<char>> {
    let t = trim(line);
    if crate::text::is_prefix("data: "@, t) { Some(t.skip(6)) } else { None }
}

pub open spec fn stream_line_kind(line: Seq<char>) -> StreamLine {
    match stream_payload(line) {
        Some(d) => if d == "[DONE]"@ { StreamLine::Done } else { StreamLine::Data },
        None => StreamLine::Ignored,
    }
}

/// Reads one line of the stream: its kind, and for a data line its payload.
pub fn stream_line(line: &str) -> (r: (StreamLine, Option<String>))
    ensures
        r.0 == stream_line_kind(line@),
        opt_view(r.1) == (if r.0 == StreamLine::Data { stream_payload(line@) } else { None }),
{
    let cs = chars_of(line);
    let t = trim_chars(cs.as_slice());
    let prefix = chars_of("data: ");
    proof {
        reveal_strlit("data: ");
        reveal_strlit("[DONE]");
    }
    if !crate::text::starts_with(t.as_slice(), prefix.as_slice()) {
        return (StreamLine::Ignored, None);
    }
    let mut rest: Vec<char> = Vec::new();
    let mut i: usize = 6;
    while i < t.len()
        invariant
            6 <= i <= t@.len(),
            rest@ == t@.subrange(6, i as int),
        decreases t@.len() - i,
    {
        rest.push(t[i]);
        i = i + 1;
    }
    assert(rest@ == t@.skip(6));
    let done = chars_of("[DONE]");
    if chars_eq(rest.as_slice(), done.as_slice()) {
        (StreamLine::Done, None)
    } else {
        (StreamLine::Data, Some(string_from(rest.as_slice())))
    }
}

} // verus!
