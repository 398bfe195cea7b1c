//! Decisions of the automated DJ: which provider speaks, which tracks are on
//! offer, what the language model is told, and what is kept afterwards.
use vstd::prelude::*;
use crate::models::{AiProvider, ContentItem, DjMemory, DjProfile};
use crate::text::{
    chars_of, is_prefix, join, push_all, push_joined, push_signed_decimal, push_str,
    signed_decimal, str_eq, string_from, strip_prefixes, strip_prefixes_chars, strip_suffixes,
    strip_suffixes_chars, trim, trim_chars, views,
};

verus! {

/// `r` is the first index below `n` where `pred` holds, or `None` if there is none.
pub open spec fn first_match(n: int, r: Option<usize>, pred: spec_fn(int) -> bool) -> bool {
    match r {
        Some(i) => i < n && pred(i as int) && forall|j: int| 0 <= j < i ==> !#[trigger] pred(j),
        None => forall|j: int| 0 <= j < n ==> !#[trigger] pred(j),
    }
}

/// Provider types that synthesise speech rather than text.
pub open spec fn speech_kind(t: Seq<char>) -> bool {
    t == "gemini-tts"@ || t == "orpheus"@
}

fn is_speech_kind(t: &str) -> (b: bool)
    ensures
        b == speech_kind(t@),
{
    str_eq(t, "gemini-tts") || str_eq(t, "orpheus")
}

/// Provider `j` is the one a DJ names by id.
pub open spec fn named_provider(ps: Seq<AiProvider>, preferred: Option<i32>, j: int) -> bool {
    preferred is Some && ps[j].id == preferred
}

/// The provider chosen among the active ones: the one the DJ names, else the
/// first whose kind (`speech` or not) fits the role.
pub open spec fn provider_choice(ps: Seq<AiProvider>, preferred: Option<i32>, speech: bool, r: Option<usize>) -> bool {
    if exists|j: int| 0 <= j < ps.len() && named_provider(ps, preferred, j) {
        first_match(ps.len() as int, r, |j: int| named_provider(ps, preferred, j))
    } else {
        first_match(ps.len() as int, r, |j: int| speech_kind(ps[j].provider_type@) == speech)
    }
}

fn find_named(ps: &[AiProvider], preferred: Option<i32>) -> (r: Option<usize>)
    ensures
        first_match(ps@.len() as int, r, |j: int| named_provider(ps@, preferred, j)),
{
    let mut i: usize = 0;
    while i < ps.len()
        invariant
            i <= ps@.len(),
            forall|j: int| 0 <= j < i ==> !#[trigger] named_provider(ps@, preferred, j),
        decreases ps@.len() - i,
    {
        if preferred.is_some() && ps[i].id == preferred {
            return Some(i);
        }
        i = i + 1;
    }
    None
}

fn find_kind(ps: &[AiProvider], speech: bool) -> (r: Option<usize>)
    ensures
        first_match(ps@.len() as int, r, |j: int| speech_kind(ps@[j].provider_type@) == speech),
{
    let mut i: usize = 0;
    while i < ps.len()
        invariant
            i <= ps@.len(),
            forall|j: int| 0 <= j < i ==> !(speech_kind(#[trigger] ps@[j].provider_type@) == speech),
        decreases ps@.len() - i,
    {
        if is_speech_kind(ps[i].provider_type.as_str()) == speech {
            return Some(i);
        }
        i = i + 1;
    }
    None
}

fn choose_provider(ps: &[AiProvider], preferred: Option<i32>, speech: bool) -> (r: Option<usize>)
    ensures
        provider_choice(ps@, preferred, speech, r),
{
    let named = find_named(ps, preferred);
    match named {
        Some(i) => {
            assert(named_provider(ps@, preferred, i as int));
            Some(i)
        },
        None => {
            assert(!exists|j: int| 0 <= j < ps@.len() && named_provider(ps@, preferred, j)) by {
                assert forall|j: int| 0 <= j < ps@.len() implies !named_provider(ps@, preferred, j) by {
                    let f = |j: int| named_provider(ps@, preferred, j);
                    assert(!f(j));
                }
            }
            find_kind(ps, speech)
        },
    }
}

/// The language model a DJ talks through, among the active providers: the
/// one it names, else the first that does not synthesise speech.
pub fn select_llm_provider(providers: &[AiProvider], dj: &DjProfile) -> (r: Option<usize>)
    ensures
        provider_choice(providers@, dj.llm_provider_id, false, r),
{
    choose_provider(providers, dj.llm_provider_id, false)
}

/// The voice a DJ speaks with, among the active providers: the one it names,
/// else the first speech synthesiser.
pub fn select_tts_provider(providers: &[AiProvider], dj: &DjProfile) -> (r: Option<usize>)
    ensures
        provider_choice(providers@, dj.voice_provider_id, true, r),
{
    choose_provider(providers, dj.voice_provider_id, true)
}

/// How many candidate tracks a DJ is offered at most.
pub const MAX_CANDIDATES: usize = 20;

/// Whether a track may be offered: it has an id, was not played recently and
/// is not the one playing now.
pub open spec fn offerable(c: ContentItem, recent: Seq<i32>, current: i32) -> bool {
    match c.id {
        Some(cid) => !recent.contains(cid) && cid != current,
        None => false,
    }
}

/// The indices of the offerable tracks among `cs`, in order.
pub open spec fn offerable_indices(cs: Seq<ContentItem>, recent: Seq<i32>, current: i32) -> Seq<int>
    decreases cs.len(),
{
    if cs.len() == 0 {
        seq![]
    } else {
        let rest = offerable_indices(cs.drop_last(), recent, current);
        if offerable(cs.last(), recent, current) {
            rest.push(cs.len() - 1)
        } else {
            rest
        }
    }
}

fn contains_id(v: &[i32], x: i32) -> (b: bool)
    ensures
        b == v@.contains(x),
{
    let mut i: usize = 0;
    while i < v.len()
        invariant
            i <= v@.len(),
            forall|j: int| 0 <= j < i ==> v@[j] != x,
        decreases v@.len() - i,
    {
        if v[i] == x {
            assert(v@[i as int] == x);
            return true;
        }
        i = i + 1;
    }
    false
}

proof fn lemma_offerable_prefix(cs: Seq<ContentItem>, recent: Seq<i32>, current: i32, i: int)
    requires
        0 <= i < cs.len(),
    ensures
        cs.take(i + 1).drop_last() == cs.take(i),
        cs.take(i + 1).last() == cs[i],
{
    assert(cs.take(i + 1).drop_last() =~= cs.take(i));
}

/// The tracks offered to the DJ, as indices into `candidates`: those that are
/// offerable, in order, at most `MAX_CANDIDATES` of them.
pub fn offer_candidates(candidates: &[ContentItem], recent: &[i32], current: i32) -> (r: Vec<usize>)
    ensures
        r@.map_values(|i: usize| i as int) == {
            let all = offerable_indices(candidates@, recent@, current);
            if all.len() > MAX_CANDIDATES { all.take(MAX_CANDIDATES as int) } else { all }
        },
{
    let mut out: Vec<usize> = Vec::new();
    let mut i: usize = 0;
    while i < candidates.len()
        invariant
            i <= candidates@.len(),
            out@.len() <= MAX_CANDIDATES,
            ({
                let all = offerable_indices(candidates@.take(i as int), recent@, current);
                out@.map_values(|k: usize| k as int) == (if all.len() > MAX_CANDIDATES {
                    all.take(MAX_CANDIDATES as int)
                } else {
                    all
                })
            }),
        decreases candidates@.len() - i,
    {
        proof {
            lemma_offerable_prefix(candidates@, recent@, current, i as int);
        }
        let ghost before = out@.map_values(|k: usize| k as int);
        let ghost all_old = offerable_indices(candidates@.take(i as int), recent@, current);
        let ghost all_new = offerable_indices(candidates@.take(i as int + 1), recent@, current);
        assert(all_new == (if offerable(candidates@[i as int], recent@, current) {
            all_old.push(i as int)
        } else {
            all_old
        }));
        let keep = match candidates[i].id {
            Some(cid) => !contains_id(recent, cid) && cid != current,
            None => false,
        };
        if keep && out.len() < MAX_CANDIDATES {
            out.push(i);
        }
        proof {
            if keep && all_old.len() >= MAX_CANDIDATES {
                assert(all_new.take(MAX_CANDIDATES as int) =~= all_old.take(MAX_CANDIDATES as int));
            }
            assert(out@.map_values(|k: usize| k as int) =~= (if all_new.len() > MAX_CANDIDATES {
                all_new.take(MAX_CANDIDATES as int)
            } else {
                all_new
            }));
        }
        i = i + 1;
    }
    assert(candidates@.take(candidates@.len() as int) =~= candidates@);
    out
}

/// The track the DJ asked for, if it is among the candidates, else the first
/// candidate; `None` only when there are no candidates.
pub fn pick_track(candidates: &[ContentItem], next_track_id: Option<i32>) -> (r: Option<usize>)
    ensures
        (next_track_id is Some && exists|j: int| 0 <= j < candidates@.len() && candidates@[j].id == next_track_id)
            ==> first_match(candidates@.len() as int, r, |j: int| candidates@[j].id == next_track_id),
        !(next_track_id is Some && exists|j: int| 0 <= j < candidates@.len() && candidates@[j].id == next_track_id)
            ==> r == (if candidates@.len() > 0 { Some(0usize) } else { None::<usize> }),
{
    if next_track_id.is_some() {
        let mut i: usize = 0;
        while i < candidates.len()
            invariant
                i <= candidates@.len(),
                next_track_id is Some,
                forall|j: int| 0 <= j < i ==> !(#[trigger] candidates@[j].id == next_track_id),
            decreases candidates@.len() - i,
        {
            if candidates[i].id == next_track_id {
                return Some(i);
            }
            i = i + 1;
        }
    }
    if candidates.len() > 0 {
        Some(0)
    } else {
        None
    }
}

/// How many plays the station remembers to avoid repeats.
pub const RECENT_PLAYS_LIMIT: usize = 20;

/// The play history after `id` starts: newest first, dropping the oldest
/// entry once there are more than `RECENT_PLAYS_LIMIT`.
pub open spec fn after_play(recent: Seq<i32>, id: i32) -> Seq<i32> {
    let n = seq![id] + recent;
    if n.len() > RECENT_PLAYS_LIMIT { n.drop_last() } else { n }
}

/// Records that `id` started playing.
pub fn record_play(recent: &mut Vec<i32>, id: i32)
    ensures
        final(recent)@ == after_play(old(recent)@, id),
{
    recent.insert(0, id);
    if recent.len() > RECENT_PLAYS_LIMIT {
        recent.pop();
    }
    assert(final(recent)@ =~= after_play(old(recent)@, id)) by {
        assert(seq![id] + old(recent)@ =~= old(recent)@.insert(0, id));
    }
}

/// Whether a node is left alone this round because the DJ already acted for
/// what it plays. `last` is the content last acted on and how many seconds ago.
/// A node that is still idle is given 45 seconds to start before a retry.
pub open spec fn already_handled(last: Option<(i32, u64)>, current: i32) -> bool {
    match last {
        Some((id, secs)) => id == current && (current != 0 || secs < 45),
        None => false,
    }
}

/// See `already_handled`.
pub fn skip_node(last: Option<(i32, u64)>, current: i32) -> (b: bool)
    ensures
        b == already_handled(last, current),
{
    match last {
        Some((id, secs)) => id == current && (current != 0 || secs < 45),
        None => false,
    }
}

/// The content whose `on_unload` hooks run: the one the node played before,
/// when that was real content and has changed.
pub fn unloaded_content(previous: Option<i32>, current: i32) -> (r: Option<i32>)
    ensures
        r == (match previous {
            Some(p) => if p != current && p != 0 { Some(p) } else { None },
            None => None,
        }),
{
    match previous {
        Some(p) => if p != current && p != 0 { Some(p) } else { None },
        None => None,
    }
}

/// The opening of the DJ's instruction: a fresh set, or the hand-over from
/// the song now ending.
pub open spec fn intro_text(current: i32, title: Seq<char>) -> Seq<char> {
    if current == 0 {
        "You are starting a set. Pick the first song from the list."@
    } else {
        "Current song '"@ + title + "' is ending. Introduce the next song."@
    }
}

/// The line that lists recently played titles, empty when there are none.
pub open spec fn recent_text(titles: Seq<Seq<char>>) -> Seq<char> {
    if titles.len() == 0 {
        seq![]
    } else {
        "Recently played tracks (Do not repeat these): "@ + join(titles, ", "@)
    }
}

/// The instruction handed to the dialogue generator.
pub open spec fn dj_request(current: i32, title: Seq<char>, titles: Seq<Seq<char>>) -> Seq<char> {
    let recent = recent_text(titles);
    if recent.len() == 0 {
        intro_text(current, title)
    } else {
        intro_text(current, title) + "\nContext: "@ + recent
    }
}

/// Builds the instruction for the next break from the content playing now
/// (0 when idle), its title, and the titles played recently.
pub fn dj_request_text(current: i32, title: &str, recent_titles: &[String]) -> (r: String)
    ensures
        r@ == dj_request(current, title@, views(recent_titles@)),
{
    let mut out: Vec<char> = Vec::new();
    if current == 0 {
        push_str(&mut out, "You are starting a set. Pick the first song from the list.");
    } else {
        push_str(&mut out, "Current song '");
        push_str(&mut out, title);
        push_str(&mut out, "' is ending. Introduce the next song.");
    }
    assert(out@ == intro_text(current, title@));
    if recent_titles.len() > 0 {
        let ghost mid = out@;
        push_str(&mut out, "\nContext: ");
        push_str(&mut out, "Recently played tracks (Do not repeat these): ");
        push_joined(&mut out, recent_titles, ", ");
        proof {
            let rt = recent_text(views(recent_titles@));
            assert(rt.len() > 0) by {
                reveal_strlit("Recently played tracks (Do not repeat these): ");
            }
            assert(out@ =~= mid + "\nContext: "@ + rt);
        }
    } else {
        assert(views(recent_titles@).len() == 0);
    }
    string_from(out.as_slice())
}

/// One remembered item, as a line of the memory list.
pub open spec fn memory_lines(ms: Seq<DjMemory>) -> Seq<char>
    decreases ms.len(),
{
    if ms.len() == 0 {
        seq![]
    } else {
        memory_lines(ms.drop_last()) + "- "@ + ms.last().content@ + "\n"@
    }
}

/// The memory section of the prompt: core memories (when there are any),
/// then recent ones or a note that there are none.
pub open spec fn memory_text(core: Seq<DjMemory>, recent: Seq<DjMemory>) -> Seq<char> {
    let head = if core.len() == 0 {
        seq![]
    } else {
        "Core Memories (Permanent Personality Context):\n"@ + memory_lines(core) + "\n"@
    };
    head + "Recent Memories (Immediate Context):\n"@ + if recent.len() == 0 {
        "- No recent events.\n"@
    } else {
        memory_lines(recent)
    }
}

fn push_memory_lines(out: &mut Vec<char>, ms: &[DjMemory])
    ensures
        final(out)@ == old(out)@ + memory_lines(ms@),
{
    let mut i: usize = 0;
    while i < ms.len()
        invariant
            i <= ms@.len(),
            out@ == old(out)@ + memory_lines(ms@.take(i as int)),
        decreases ms@.len() - i,
    {
        push_str(out, "- ");
        push_str(out, ms[i].content.as_str());
        push_str(out, "\n");
        proof {
            let t = ms@.take(i as int + 1);
            assert(t.drop_last() =~= ms@.take(i as int));
            assert(t.last() == ms@[i as int]);
        }
        i = i + 1;
    }
    assert(ms@.take(ms@.len() as int) =~= ms@);
}

/// Formats what a DJ remembers for the prompt.
pub fn format_memories(core_memories: &[DjMemory], recent_memories: &[DjMemory]) -> (r: String)
    ensures
        r@ == memory_text(core_memories@, recent_memories@),
{
    let mut out: Vec<char> = Vec::new();
    if core_memories.len() > 0 {
        push_str(&mut out, "Core Memories (Permanent Personality Context):\n");
        push_memory_lines(&mut out, core_memories);
        push_str(&mut out, "\n");
    }
    push_str(&mut out, "Recent Memories (Immediate Context):\n");
    if recent_memories.len() == 0 {
        push_str(&mut out, "- No recent events.\n");
    } else {
        push_memory_lines(&mut out, recent_memories);
    }
    proof {
        if core_memories@.len() == 0 {
            assert(out@ =~= memory_text(core_memories@, recent_memories@));
        } else {
            assert(out@ =~= memory_text(core_memories@, recent_memories@));
        }
    }
    string_from(out.as_slice())
}

/// The base context followed by what the context scripts produced, if anything.
pub open spec fn combined_context(base: Seq<char>, script: Seq<char>) -> Seq<char> {
    if script.len() == 0 {
        base
    } else {
        base + "\n[System Context]: "@ + script
    }
}

/// Appends the output of the DJ's context scripts to the base context.
pub fn combine_context(base_context: &str, script_context: &str) -> (r: String)
    ensures
        r@ == combined_context(base_context@, script_context@),
{
    let mut out: Vec<char> = Vec::new();
    push_str(&mut out, base_context);
    let sc = chars_of(script_context);
    if sc.len() > 0 {
        push_str(&mut out, "\n[System Context]: ");
        push_all(&mut out, sc.as_slice());
    }
    string_from(out.as_slice())
}

/// One track of the list the DJ picks from.
pub open spec fn track_line(t: ContentItem) -> Seq<char> {
    "- ID "@ + signed_decimal(
        match t.id {
            Some(i) => i as int,
            None => 0,
        },
    ) + ": "@ + t.title@ + " (Type: "@ + t.content_type@ + ", Desc: "@ + match t.description {
        Some(d) => d@,
        None => seq![],
    } + ")\n"@
}

pub open spec fn track_lines(ts: Seq<ContentItem>) -> Seq<char>
    decreases ts.len(),
{
    if ts.len() == 0 {
        seq![]
    } else {
        track_lines(ts.drop_last()) + track_line(ts.last())
    }
}

/// The part of the prompt that lists the tracks on offer, empty when none are.
pub open spec fn track_selection_text(tracks: Option<Seq<ContentItem>>) -> Seq<char> {
    match tracks {
        Some(ts) => if ts.len() > 0 {
            "\nAvailable Tracks to Pick From:\n"@ + track_lines(ts)
                + "\nINSTRUCTION: You MUST pick one track ID from the list above for the 'next_track_id' field. Choose the one that best fits your current mood/persona.\n"@
        } else {
            seq![]
        },
        None => seq![],
    }
}

fn push_track_line(out: &mut Vec<char>, t: &ContentItem)
    ensures
        final(out)@ == old(out)@ + track_line(*t),
{
    push_str(out, "- ID ");
    let id: i64 = match t.id {
        Some(i) => i as i64,
        None => 0,
    };
    push_signed_decimal(out, id);
    push_str(out, ": ");
    push_str(out, t.title.as_str());
    push_str(out, " (Type: ");
    push_str(out, t.content_type.as_str());
    push_str(out, ", Desc: ");
    match &t.description {
        Some(d) => push_str(out, d.as_str()),
        None => {},
    }
    push_str(out, ")\n");
    proof {
        assert(final(out)@ =~= old(out)@ + track_line(*t));
    }
}

/// Lists the tracks the DJ may pick the next one from.
pub fn build_track_selection_prompt(candidate_tracks: Option<&[ContentItem]>) -> (r: String)
    ensures
        r@ == track_selection_text(
            match candidate_tracks {
                Some(ts) => Some(ts@),
                None => None,
            },
        ),
{
    let mut out: Vec<char> = Vec::new();
    match candidate_tracks {
        Some(ts) => {
            if ts.len() > 0 {
                push_str(&mut out, "\nAvailable Tracks to Pick From:\n");
                let ghost head = out@;
                let mut i: usize = 0;
                while i < ts.len()
                    invariant
                        i <= ts@.len(),
                        out@ == head + track_lines(ts@.take(i as int)),
                    decreases ts@.len() - i,
                {
                    push_track_line(&mut out, &ts[i]);
                    proof {
                        let t = ts@.take(i as int + 1);
                        assert(t.drop_last() =~= ts@.take(i as int));
                        assert(t.last() == ts@[i as int]);
                    }
                    i = i + 1;
                }
                assert(ts@.take(ts@.len() as int) =~= ts@);
                push_str(
                    &mut out,
                    "\nINSTRUCTION: You MUST pick one track ID from the list above for the 'next_track_id' field. Choose the one that best fits your current mood/persona.\n",
                );
            }
        },
        None => {},
    }
    string_from(out.as_slice())
}

/// The standing instructions that close every DJ prompt.
pub open spec fn prompt_rules() -> Seq<char> {
    "\n\nGenerate a short break (1-3 sentences) suitable for a TTS engine.\n\nCRITICAL INSTRUCTION: Check 'Recent Memories' above.\n- If you have recently discussed a specific news story, topic, fact, or anecdote, YOU MUST NOT MENTION IT AGAIN.\n- If you have run out of new topics, focus on the music, the vibe, or the artist. Do not repeat old news.\n\nIMPORTANT: You MUST use behavior tags to express emotion and pacing. Available tags: <giggle>, <laugh>, <chuckle>, <sigh>, <cough>, <sniffle>, <groan>, <yawn>, <gasp>.\nIncorporate these naturally into the dialogue to make it feel ALIVE and human-like.\nOutput MUST be valid JSON with the following fields:\n- text: The spoken words (including tags).\n- emotion: A single adjective describing the voice style (e.g. 'excited', 'sad', 'scared', 'whispering', 'shouting'). If neutral, use null.\n- memory_importance: Integer 1-10. How important is this event to remember? Be STRICT.\n  - 1-3: Routine chatter, song intros, generic comments. (DO NOT SAVE)\n  - 4-7: Specific opinions, new user interactions, mild context shifts.\n  - 8-10: Major events, distinct personality shifts, recurring jokes established, or critical information.\n- new_memory: A short summary string of what just happened.\n  - CRITICAL RULES FOR MEMORIES:\n    1. **NO REPETITION**: Check 'Recent Memories'. If this event is similar to a recent one, return NULL.\n    2. **HIGH ENTROPY**: Only save memories that add NEW, UNIQUE context. Do not save generic statements like \"DJ played a song\".\n    3. **SPECIFICITY**: Be specific. Instead of \"DJ liked the song\", say \"DJ raved about the bassline in Track 88\".\n  - If importance <= 5 or redundant, set this to null.\n- next_track_id: Integer ID of the track you selected (if available tracks were provided).\n\nExample JSON:\n{\n  \"text\": \"That was... intense! Let's cool down with something smoother.\",\n  \"emotion\": \"relaxed\",\n  \"memory_importance\": 3,\n  \"new_memory\": null,\n  \"next_track_id\": 123\n}"@
}

fn prompt_rules_text() -> (s: &'static str)
    ensures
        s@ == prompt_rules(),
{
    "\n\nGenerate a short break (1-3 sentences) suitable for a TTS engine.\n\nCRITICAL INSTRUCTION: Check 'Recent Memories' above.\n- If you have recently discussed a specific news story, topic, fact, or anecdote, YOU MUST NOT MENTION IT AGAIN.\n- If you have run out of new topics, focus on the music, the vibe, or the artist. Do not repeat old news.\n\nIMPORTANT: You MUST use behavior tags to express emotion and pacing. Available tags: <giggle>, <laugh>, <chuckle>, <sigh>, <cough>, <sniffle>, <groan>, <yawn>, <gasp>.\nIncorporate these naturally into the dialogue to make it feel ALIVE and human-like.\nOutput MUST be valid JSON with the following fields:\n- text: The spoken words (including tags).\n- emotion: A single adjective describing the voice style (e.g. 'excited', 'sad', 'scared', 'whispering', 'shouting'). If neutral, use null.\n- memory_importance: Integer 1-10. How important is this event to remember? Be STRICT.\n  - 1-3: Routine chatter, song intros, generic comments. (DO NOT SAVE)\n  - 4-7: Specific opinions, new user interactions, mild context shifts.\n  - 8-10: Major events, distinct personality shifts, recurring jokes established, or critical information.\n- new_memory: A short summary string of what just happened.\n  - CRITICAL RULES FOR MEMORIES:\n    1. **NO REPETITION**: Check 'Recent Memories'. If this event is similar to a recent one, return NULL.\n    2. **HIGH ENTROPY**: Only save memories that add NEW, UNIQUE context. Do not save generic statements like \"DJ played a song\".\n    3. **SPECIFICITY**: Be specific. Instead of \"DJ liked the song\", say \"DJ raved about the bassline in Track 88\".\n  - If importance <= 5 or redundant, set this to null.\n- next_track_id: Integer ID of the track you selected (if available tracks were provided).\n\nExample JSON:\n{\n  \"text\": \"That was... intense! Let's cool down with something smoother.\",\n  \"emotion\": \"relaxed\",\n  \"memory_importance\": 3,\n  \"new_memory\": null,\n  \"next_track_id\": 123\n}"
}

/// The full prompt sent to the language model for one break.
pub open spec fn full_prompt(personality: Seq<char>, memory: Seq<char>, context: Seq<char>, tracks: Seq<char>) -> Seq<char> {
    "You are a radio DJ.\nPersonality: "@ + personality + "\nRecent Memories:\n"@ + memory
        + "\nContext: "@ + context + "\n"@ + tracks + prompt_rules()
}

/// Assembles the prompt from the persona, its memories, the context and the
/// track list.
pub fn build_full_prompt(profile: &DjProfile, memory_text: &str, context: &str, track_selection: &str) -> (r: String)
    ensures
        r@ == full_prompt(profile.personality_prompt@, memory_text@, context@, track_selection@),
{
    let mut out: Vec<char> = Vec::new();
    push_str(&mut out, "You are a radio DJ.\nPersonality: ");
    push_str(&mut out, profile.personality_prompt.as_str());
    push_str(&mut out, "\nRecent Memories:\n");
    push_str(&mut out, memory_text);
    push_str(&mut out, "\nContext: ");
    push_str(&mut out, context);
    push_str(&mut out, "\n");
    push_str(&mut out, track_selection);
    push_str(&mut out, prompt_rules_text());
    string_from(out.as_slice())
}

/// A model reply with surrounding white space and a Markdown code fence removed.
pub open spec fn unfenced(reply: Seq<char>) -> Seq<char> {
    strip_suffixes(strip_prefixes(strip_prefixes(trim(reply), "```json"@), "```"@), "```"@)
}

/// Removes white space and a Markdown code fence around a model's JSON reply.
pub fn clean_json_reply(reply: &str) -> (r: String)
    ensures
        r@ == unfenced(reply@),
{
    let cs = chars_of(reply);
    let t = trim_chars(cs.as_slice());
    let fence_json = chars_of("```json");
    let fence = chars_of("```");
    let a = strip_prefixes_chars(t.as_slice(), fence_json.as_slice());
    let b = strip_prefixes_chars(a.as_slice(), fence.as_slice());
    let c = strip_suffixes_chars(b.as_slice(), fence.as_slice());
    string_from(c.as_slice())
}

/// The prompt for the next attempt after the model's reply failed to parse.
pub fn correction_prompt(prompt: &str, error: &str) -> (r: String)
    ensures
        r@ == prompt@ + "\n\nSYSTEM: Your previous response was invalid JSON. Error: "@ + error@
            + ". Please output ONLY valid JSON matching the schema."@,
{
    let mut out: Vec<char> = Vec::new();
    push_str(&mut out, prompt);
    push_str(&mut out, "\n\nSYSTEM: Your previous response was invalid JSON. Error: ");
    push_str(&mut out, error);
    push_str(&mut out, ". Please output ONLY valid JSON matching the schema.");
    string_from(out.as_slice())
}

/// Whether a break is worth remembering: importance above 5 and a summary given.
pub fn should_save_memory(memory_importance: Option<i32>, new_memory: &Option<String>) -> (b: bool)
    ensures
        b == ((match memory_importance {
            Some(i) => i,
            None => 0,
        }) > 5 && new_memory is Some),
{
    let importance = match memory_importance {
        Some(i) => i,
        None => 0,
    };
    importance > 5 && new_memory.is_some()
}

/// The address under which a node fetches a synthesised break.
pub fn tts_url(host: &str, port: u16, filename: &str) -> (r: String)
    ensures
        r@ == "http://"@ + host@ + ":"@ + signed_decimal(port as int) + "/tts/"@ + filename@,
{
    let mut out: Vec<char> = Vec::new();
    push_str(&mut out, "http://");
    push_str(&mut out, host);
    push_str(&mut out, ":");
    push_signed_decimal(&mut out, port as i64);
    push_str(&mut out, "/tts/");
    push_str(&mut out, filename);
    string_from(out.as_slice())
}

/// The first DJ profile with id `id`.
pub open spec fn profile_index(ps: Seq<DjProfile>, id: i32, r: Option<usize>) -> bool {
    first_match(ps.len() as int, r, |j: int| ps[j].id == Some(id))
}

fn find_profile(ps: &[DjProfile], id: i32) -> (r: Option<usize>)
    ensures
        profile_index(ps@, id, r),
{
    let mut i: usize = 0;
    while i < ps.len()
        invariant
            i <= ps@.len(),
            forall|j: int| 0 <= j < i ==> !(#[trigger] ps@[j].id == Some(id)),
        decreases ps@.len() - i,
    {
        if ps[i].id == Some(id) {
            return Some(i);
        }
        i = i + 1;
    }
    None
}

/// The DJ who speaks over a block: the block's own DJ, else its schedule's,
/// else the first DJ there is. A DJ named but not found falls through.
pub open spec fn dj_choice(ps: Seq<DjProfile>, block_dj: Option<i32>, schedule_dj: Option<i32>, r: Option<usize>) -> bool {
    let by_block = block_dj is Some && exists|j: int| 0 <= j < ps.len() && ps[j].id == block_dj;
    let by_schedule = schedule_dj is Some && exists|j: int| 0 <= j < ps.len() && ps[j].id == schedule_dj;
    if by_block {
        profile_index(ps, block_dj->0, r)
    } else if by_schedule {
        profile_index(ps, schedule_dj->0, r)
    } else {
        r == (if ps.len() > 0 { Some(0usize) } else { None::<usize> })
    }
}

/// Picks the DJ for a block (see `dj_choice`).
pub fn choose_dj(profiles: &[DjProfile], block_dj: Option<i32>, schedule_dj: Option<i32>) -> (r: Option<usize>)
    ensures
        dj_choice(profiles@, block_dj, schedule_dj, r),
{
    match block_dj {
        Some(id) => match find_profile(profiles, id) {
            Some(i) => {
                assert(profiles@[i as int].id == block_dj);
                return Some(i);
            },
            None => {
                assert forall|j: int| 0 <= j < profiles@.len() implies profiles@[j].id != block_dj by {
                    let f = |j: int| profiles@[j].id == Some(id);
                    assert(!f(j));
                }
            },
        },
        None => {},
    }
    match schedule_dj {
        Some(id) => match find_profile(profiles, id) {
            Some(i) => {
                assert(profiles@[i as int].id == schedule_dj);
                return Some(i);
            },
            None => {
                assert forall|j: int| 0 <= j < profiles@.len() implies profiles@[j].id != schedule_dj by {
                    let f = |j: int| profiles@[j].id == Some(id);
                    assert(!f(j));
                }
            },
        },
        None => {},
    }
    if profiles.len() > 0 {
        Some(0)
    } else {
        None
    }
}

/// What the DJ does for a node when no schedule has a block on air.
#[derive(Debug, PartialEq, Eq, Structural)]
pub enum OffAir {
    /// The node is idle: nothing is started.
    StayIdle,
    /// The node plays outside every block: it is paused.
    Pause,
}

/// Decides what happens to a node outside every block.
pub fn off_air_action(current_content_id: Option<i32>) -> (r: OffAir)
    ensures
        r == (if current_content_id is None { OffAir::StayIdle } else { OffAir::Pause }),
{
    if current_content_id.is_none() {
        OffAir::StayIdle
    } else {
        OffAir::Pause
    }
}


/// The play history stays at most `RECENT_PLAYS_LIMIT` long and starts with
/// the newest play.
pub proof fn lemma_recent_plays_bounded(recent: Seq<i32>, id: i32)
    requires
        recent.len() <= RECENT_PLAYS_LIMIT,
    ensures
        after_play(recent, id).len() <= RECENT_PLAYS_LIMIT,
        after_play(recent, id)[0] == id,
        recent.len() < RECENT_PLAYS_LIMIT ==> after_play(recent, id) == seq![id] + recent,
{
}

/// A recently played or playing track is never offered: every offered index
/// names a track with an id that is neither in the history nor the current one.
pub proof fn lemma_offered_not_recent(cs: Seq<ContentItem>, recent: Seq<i32>, current: i32, k: int)
    requires
        0 <= k < offerable_indices(cs, recent, current).len(),
    ensures
        0 <= offerable_indices(cs, recent, current)[k] < cs.len(),
        offerable(cs[offerable_indices(cs, recent, current)[k]], recent, current),
    decreases cs.len(),
{
    let rest = offerable_indices(cs.drop_last(), recent, current);
    if k < rest.len() {
        lemma_offered_not_recent(cs.drop_last(), recent, current, k);
        assert(cs.drop_last()[rest[k]] == cs[rest[k]]);
    }
}

/// A node is left alone while a DJ generation for it is still running.
pub fn generation_running(active: &[i32], node: i32) -> (b: bool)
    ensures
        b == active@.contains(node),
{
    let mut i: usize = 0;
    while i < active.len()
        invariant
            i <= active@.len(),
            forall|k: int| 0 <= k < i ==> active@[k] != node,
        decreases active@.len() - i,
    {
        if active[i] == node {
            assert(active@[i as int] == node);
            return true;
        }
        i = i + 1;
    }
    false
}

/// What came of one attempt at the DJ's reply.
pub enum AttemptOutcome {
    /// The model could not be reached or answered with an error.
    GenerationFailed,
    /// The reply parsed.
    Parsed,
    /// The reply did not parse, with the parser's message.
    ParseFailed(String),
}

/// What to do after an attempt.
pub enum RetryStep {
    /// Use the parsed reply.
    Accept,
    /// Stop: the last attempt failed.
    GiveUp,
    /// Ask again with this prompt.
    Retry(String),
}

/// After attempt `attempt` of `max_attempts` (counted from 1): a parsed reply
/// is used; a failure on the last attempt gives up; otherwise the model is
/// asked again, with the same prompt after a failed call and with the
/// correction appended after a reply that did not parse.
pub fn retry_step(attempt: u32, max_attempts: u32, prompt: &str, outcome: &AttemptOutcome) -> (r: RetryStep)
    ensures
        match outcome {
            AttemptOutcome::Parsed => r is Accept,
            AttemptOutcome::GenerationFailed => if attempt >= max_attempts {
                r is GiveUp
            } else {
                r matches RetryStep::Retry(p) && p@ == prompt@
            },
            AttemptOutcome::ParseFailed(e) => if attempt >= max_attempts {
                r is GiveUp
            } else {
                r matches RetryStep::Retry(p) && p@ == prompt@
                    + "\n\nSYSTEM: Your previous response was invalid JSON. Error: "@ + e@
                    + ". Please output ONLY valid JSON matching the schema."@
            },
        },
{
    match outcome {
        AttemptOutcome::Parsed => RetryStep::Accept,
        AttemptOutcome::GenerationFailed => if attempt >= max_attempts {
            RetryStep::GiveUp
        } else {
            RetryStep::Retry(crate::text::owned(prompt))
        },
        AttemptOutcome::ParseFailed(e) => if attempt >= max_attempts {
            RetryStep::GiveUp
        } else {
            RetryStep::Retry(correction_prompt(prompt, e.as_str()))
        },
    }
}

} // verus!
