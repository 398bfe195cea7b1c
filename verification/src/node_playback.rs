//! What a node decides while it plays: the server addresses it talks to, the
//! content it knows, when to switch or stop, and the order of a spot reel.
use vstd::prelude::*;
use crate::bumper::{file_name_of, path_file_name, replace_all, replaced, split_chars, split_on};
use crate::node_schedule::{content_path_of, ScheduleBlock, ServerContentItem, ServerScript};
use crate::text::{chars_of, concat, is_prefix, owned, push_signed_decimal, push_str, signed_decimal, string_from};
use crate::tts::{opt_view, parse_i32, parsed_i32};

verus! {

/// `s` up to the first occurrence of `pat` (the first piece of `str::split`).
pub open spec fn before_first(s: Seq<char>, pat: Seq<char>) -> Seq<char>
    decreases s.len(),
{
    if pat.len() == 0 || s.len() == 0 {
        if pat.len() == 0 { seq![] } else { s }
    } else if is_prefix(pat, s) {
        seq![]
    } else {
        seq![s[0]] + before_first(s.drop_first(), pat)
    }
}

fn prefix_before(s: &[char], pat: &[char]) -> (r: Vec<char>)
    requires
        pat@.len() > 0,
    ensures
        r@ == before_first(s@, pat@),
{
    let n = s.len();
    let mut i: usize = 0;
    assert(s@.skip(0) =~= s@);
    assert(s@.take(0) + before_first(s@.skip(0), pat@) =~= before_first(s@, pat@));
    while i < n
        invariant
            i <= n,
            n == s@.len(),
            pat@.len() > 0,
            s@.take(i as int) + before_first(s@.skip(i as int), pat@) == before_first(s@, pat@),
        decreases n - i,
    {
        let rest = &s[i..n];
        proof {
            assert(rest@ =~= s@.skip(i as int));
        }
        if crate::text::starts_with(rest, pat) {
            let mut out: Vec<char> = Vec::new();
            let mut k: usize = 0;
            while k < i
                invariant
                    k <= i,
                    i <= n,
                    n == s@.len(),
                    out@ == s@.take(k as int),
                decreases i - k,
            {
                out.push(s[k]);
                k = k + 1;
                assert(out@ =~= s@.take(k as int));
            }
            assert(s@.take(i as int) + seq![] =~= s@.take(i as int));
            return out;
        }
        proof {
            assert(s@.skip(i as int).drop_first() =~= s@.skip(i as int + 1));
            assert(s@.take(i as int) + seq![s@[i as int]] =~= s@.take(i as int + 1));
            assert(s@.take(i as int + 1) + before_first(s@.skip(i as int + 1), pat@) =~= s@.take(
                i as int,
            ) + before_first(s@.skip(i as int), pat@));
        }
        i = i + 1;
    }
    assert(s@.skip(n as int).len() == 0);
    assert(s@.take(n as int) =~= s@);
    assert(s@.take(n as int) + s@.skip(n as int) =~= s@);
    let mut out: Vec<char> = Vec::new();
    crate::text::push_all(&mut out, s);
    out
}

/// The HTTP base of the server's API, from the WebSocket address a node is
/// configured with.
pub open spec fn api_base(server_url: Seq<char>) -> Seq<char> {
    before_first(replaced(replaced(server_url, "ws://"@, "http://"@), "wss://"@, "https://"@), "/ws"@)
}

/// Derives the API base (see `api_base`).
pub fn api_base_url(server_url: &str) -> (r: String)
    ensures
        r@ == api_base(server_url@),
{
    proof {
        reveal_strlit("ws://");
        reveal_strlit("wss://");
        reveal_strlit("/ws");
    }
    let a = replace_all(server_url, "ws://", "http://");
    let b = replace_all(a.as_str(), "wss://", "https://");
    let cs = chars_of(b.as_str());
    let pat = chars_of("/ws");
    let p = prefix_before(cs.as_slice(), pat.as_slice());
    string_from(p.as_slice())
}

/// The base a node fetches its schedule and settings from.
pub open spec fn schedule_base(server_url: Seq<char>) -> Seq<char> {
    replaced(replaced(server_url, "ws://"@, "http://"@), "/ws"@, ""@)
}

/// Derives the schedule base (see `schedule_base`).
pub fn schedule_base_url(server_url: &str) -> (r: String)
    ensures
        r@ == schedule_base(server_url@),
{
    proof {
        reveal_strlit("ws://");
        reveal_strlit("/ws");
        reveal_strlit("");
    }
    let a = replace_all(server_url, "ws://", "http://");
    replace_all(a.as_str(), "/ws", "")
}

/// The address of a node's schedule.
pub fn node_schedule_url(base: &str, node_id: i32) -> (r: String)
    ensures
        r@ == base@ + "/api/nodes/"@ + signed_decimal(node_id as int) + "/schedule"@,
{
    let mut out: Vec<char> = Vec::new();
    push_str(&mut out, base);
    push_str(&mut out, "/api/nodes/");
    push_signed_decimal(&mut out, node_id as i64);
    push_str(&mut out, "/schedule");
    string_from(out.as_slice())
}

/// The address of a spot reel.
pub fn spot_reel_url(api: &str, reel_id: i32) -> (r: String)
    ensures
        r@ == api@ + "/api/spot-reels/"@ + signed_decimal(reel_id as int),
{
    let mut out: Vec<char> = Vec::new();
    push_str(&mut out, api);
    push_str(&mut out, "/api/spot-reels/");
    push_signed_decimal(&mut out, reel_id as i64);
    string_from(out.as_slice())
}

/// Where a queued bumper is looked up: by id when the name is a number,
/// else in the list of all bumpers.
pub open spec fn bumper_lookup(api: Seq<char>, name_or_id: Seq<char>) -> Seq<char> {
    if parsed_i32(name_or_id) is Some {
        api + "/api/bumpers/"@ + name_or_id
    } else {
        api + "/api/bumpers"@
    }
}

/// The address to look a queued bumper up at.
pub fn bumper_info_url(api: &str, name_or_id: &str) -> (r: String)
    ensures
        r@ == bumper_lookup(api@, name_or_id@),
{
    let cs = chars_of(name_or_id);
    let mut out: Vec<char> = Vec::new();
    push_str(&mut out, api);
    if parse_i32(cs.as_slice()).is_some() {
        push_str(&mut out, "/api/bumpers/");
        push_str(&mut out, name_or_id);
    } else {
        push_str(&mut out, "/api/bumpers");
    }
    string_from(out.as_slice())
}

/// The file name a rendered bumper is cached under: the last piece of its path.
pub fn bumper_cache_name(rendered_path: &str) -> (r: String)
    ensures
        r@ == split_on(rendered_path@, '/').last(),
{
    let cs = chars_of(rendered_path);
    let parts = split_chars(cs.as_slice(), '/');
    proof {
        crate::bumper::lemma_split_nonempty(rendered_path@, '/');
        assert(parts@.map_values(|p: Vec<char>| p@).last() == parts@[parts@.len() - 1]@);
    }
    let last = parts.len() - 1;
    string_from(parts[last].as_slice())
}

/// The address a rendered bumper is downloaded from.
pub fn bumper_download_url(api: &str, rendered_path: &str) -> (r: String)
    ensures
        r@ == api@ + "/"@ + rendered_path@,
{
    let mut out: Vec<char> = Vec::new();
    push_str(&mut out, api);
    push_str(&mut out, "/");
    push_str(&mut out, rendered_path);
    string_from(out.as_slice())
}

/// The content a node knows about, by id; a later entry replaces an earlier one.
pub struct ContentCache {
    items: Vec<ServerContentItem>,
}

/// The transformer list of content `id` among the items, the last mention
/// winning: `None` for an unknown id, `Some(None)` when the item has no list.
pub open spec fn transformers_of(items: Seq<ServerContentItem>, id: i32) -> Option<Option<Seq<char>>>
    decreases items.len(),
{
    if items.len() == 0 {
        None
    } else if items.last().id == id {
        Some(opt_view(items.last().transformer_scripts))
    } else {
        transformers_of(items.drop_last(), id)
    }
}

impl ContentCache {
    /// The path known for content `id`.
    pub closed spec fn path(&self, id: i32) -> Option<Seq<char>> {
        content_path_of(self.items@, id)
    }

    /// The transformer list known for content `id` (see `transformers_of`).
    pub closed spec fn transformer_list(&self, id: i32) -> Option<Option<Seq<char>>> {
        transformers_of(self.items@, id)
    }

    pub fn new() -> (r: Self)
        ensures
            forall|id: i32| r.path(id) is None,
            forall|id: i32| r.transformer_list(id) is None,
    {
        ContentCache { items: Vec::new() }
    }

    /// Records an item, replacing what was known for its id.
    pub fn insert(&mut self, item: ServerContentItem)
        ensures
            final(self).path(item.id) == Some(item.content_path@),
            final(self).transformer_list(item.id) == Some(opt_view(item.transformer_scripts)),
            forall|id: i32| id != item.id ==> final(self).path(id) == old(self).path(id),
            forall|id: i32| id != item.id ==> final(self).transformer_list(id) == old(self).transformer_list(id),
    {
        self.items.push(item);
        proof {
            assert(self.items@.drop_last() == old(self).items@);
        }
    }

    /// The path known for content `id`.
    pub fn path_of(&self, id: i32) -> (r: Option<String>)
        ensures
            opt_view(r) == self.path(id),
    {
        let mut i = self.items.len();
        assert(self.items@.take(i as int) =~= self.items@);
        while i > 0
            invariant
                i <= self.items@.len(),
                content_path_of(self.items@, id) == content_path_of(self.items@.take(i as int), id),
            decreases i,
        {
            let j = i - 1;
            proof {
                assert(self.items@.take(i as int).drop_last() =~= self.items@.take(j as int));
                assert(self.items@.take(i as int).last() == self.items@[j as int]);
            }
            if self.items[j].id == id {
                return Some(owned(self.items[j].content_path.as_str()));
            }
            i = j;
        }
        None
    }

    /// The transformer list known for content `id`: `None` when the id is
    /// unknown or its item has no list.
    pub fn transformers(&self, id: i32) -> (r: Option<String>)
        ensures
            opt_view(r) == match self.transformer_list(id) {
                Some(t) => t,
                None => None,
            },
    {
        let mut i = self.items.len();
        assert(self.items@.take(i as int) =~= self.items@);
        while i > 0
            invariant
                i <= self.items@.len(),
                transformers_of(self.items@, id) == transformers_of(self.items@.take(i as int), id),
            decreases i,
        {
            let j = i - 1;
            proof {
                assert(self.items@.take(i as int).drop_last() =~= self.items@.take(j as int));
                assert(self.items@.take(i as int).last() == self.items@[j as int]);
            }
            if self.items[j].id == id {
                return match &self.items[j].transformer_scripts {
                    Some(t) => Some(owned(t.as_str())),
                    None => None,
                };
            }
            i = j;
        }
        None
    }
}

/// The path a node plays content `id` from: the one sent with the command,
/// else the one it knows.
pub fn resolve_content_path(cache: &ContentCache, content_id: i32, path_override: Option<String>) -> (r: Result<String, String>)
    ensures
        path_override matches Some(p) ==> (r matches Ok(q) && q@ == p@),
        path_override is None ==> match cache.path(content_id) {
            Some(p) => r matches Ok(q) && q@ == p,
            None => r matches Err(e) && e@ == "Content ID "@ + signed_decimal(content_id as int) + " not found in cache"@,
        },
{
    match path_override {
        Some(p) => Ok(p),
        None => match cache.path_of(content_id) {
            Some(p) => Ok(p),
            None => {
                let mut out: Vec<char> = Vec::new();
                push_str(&mut out, "Content ID ");
                push_signed_decimal(&mut out, content_id as i64);
                push_str(&mut out, " not found in cache");
                Err(string_from(out.as_slice()))
            },
        },
    }
}

/// A command to load content: a path sent with it is remembered first, as an
/// item with no transformer list.
pub fn remember_loaded(cache: &mut ContentCache, content_id: i32, path: &Option<String>)
    ensures
        path matches Some(p) ==> final(cache).path(content_id) == Some(p@)
            && final(cache).transformer_list(content_id) == Some(None::<Seq<char>>),
        path is None ==> *final(cache) == *old(cache),
        forall|id: i32| id != content_id ==> final(cache).path(id) == old(cache).path(id),
        forall|id: i32| id != content_id ==> final(cache).transformer_list(id) == old(cache).transformer_list(id),
{
    match path {
        Some(p) => {
            cache.insert(ServerContentItem { id: content_id, content_path: owned(p.as_str()), transformer_scripts: None });
        },
        None => {},
    }
}

/// A command to queue content: the path sent with it (remembered first), else
/// the one known; `None` when there is neither.
pub fn queue_path(cache: &mut ContentCache, content_id: i32, path: Option<String>) -> (r: Option<String>)
    ensures
        path matches Some(p) ==> (r matches Some(q) && q@ == p@ && final(cache).path(content_id) == Some(p@)
            && final(cache).transformer_list(content_id) == Some(None::<Seq<char>>)),
        path is None ==> opt_view(r) == old(cache).path(content_id) && *final(cache) == *old(cache),
        forall|id: i32| id != content_id ==> final(cache).path(id) == old(cache).path(id),
        forall|id: i32| id != content_id ==> final(cache).transformer_list(id) == old(cache).transformer_list(id),
{
    remember_loaded(cache, content_id, &path);
    match path {
        Some(p) => Some(p),
        None => cache.path_of(content_id),
    }
}

/// What the play loop does on a tick.
#[derive(Debug, PartialEq, Eq, Structural)]
pub enum PlaybackStep {
    /// Nothing changes.
    Keep,
    /// The scheduled content changed: unload the previous scripts and start
    /// the block's content (when it has a path).
    Switch,
    /// Nothing is scheduled any more: unload the scripts and stop.
    Stop,
}

/// The play loop's decision, from the content it last started and the block
/// now on air.
pub open spec fn step_for(last: Option<i32>, block: Option<ScheduleBlock>) -> PlaybackStep {
    match block {
        Some(b) => if b.content_id != last { PlaybackStep::Switch } else { PlaybackStep::Keep },
        None => if last is Some { PlaybackStep::Stop } else { PlaybackStep::Keep },
    }
}

/// Decides what the play loop does this tick (see `step_for`).
pub fn playback_step(last: Option<i32>, block: Option<&ScheduleBlock>) -> (r: PlaybackStep)
    ensures
        r == step_for(last, match block { Some(b) => Some(*b), None => None }),
{
    match block {
        Some(b) => if b.content_id != last { PlaybackStep::Switch } else { PlaybackStep::Keep },
        None => if last.is_some() { PlaybackStep::Stop } else { PlaybackStep::Keep },
    }
}

/// A spot reel as a node receives it.
pub struct SpotReelResponse {
    pub id: Option<i32>,
    pub title: String,
    pub items: Vec<SpotReelItemResponse>,
}

/// One item of a spot reel.
pub struct SpotReelItemResponse {
    pub id: Option<i32>,
    /// "image", "video" or "web".
    pub item_type: String,
    pub item_path: String,
    pub display_duration_secs: i32,
    pub position: i32,
    pub title: Option<String>,
}

/// How a spot reel item is shown.
#[derive(Debug, PartialEq, Eq, Structural)]
pub enum ReelItemKind {
    Image,
    Video,
    Web,
    Unknown,
}

pub open spec fn reel_kind(t: Seq<char>) -> ReelItemKind {
    if t == "image"@ {
        ReelItemKind::Image
    } else if t == "video"@ {
        ReelItemKind::Video
    } else if t == "web"@ {
        ReelItemKind::Web
    } else {
        ReelItemKind::Unknown
    }
}

impl SpotReelItemResponse {
    /// How this item is shown; unknown types are skipped.
    pub fn kind(&self) -> (r: ReelItemKind)
        ensures
            r == reel_kind(self.item_type@),
    {
        let t = self.item_type.as_str();
        if crate::text::str_eq(t, "image") {
            ReelItemKind::Image
        } else if crate::text::str_eq(t, "video") {
            ReelItemKind::Video
        } else if crate::text::str_eq(t, "web") {
            ReelItemKind::Web
        } else {
            ReelItemKind::Unknown
        }
    }

    /// The name the item is announced by: its title, else its path.
    pub fn display_title(&self) -> (r: String)
        ensures
            r@ == (match &self.title {
                Some(t) => t@,
                None => self.item_path@,
            }),
    {
        match &self.title {
            Some(t) => owned(t.as_str()),
            None => owned(self.item_path.as_str()),
        }
    }
}

/// `order` lists every index of `items` once, by position, ties keeping
/// their order (a stable sort by position).
pub open spec fn sorted_by_position(items: Seq<SpotReelItemResponse>, order: Seq<usize>) -> bool {
    &&& order.len() == items.len()
    &&& forall|k: int| 0 <= k < order.len() ==> (#[trigger] order[k]) < items.len()
    &&& forall|a: int, b: int| #![trigger order[a], order[b]] 0 <= a < b < order.len() ==> order[a] != order[b]
    &&& forall|a: int, b: int| #![trigger order[a], order[b]] 0 <= a < b < order.len() ==> reel_before(items, order[a], order[b])
}

/// Item `x` plays before item `y`: a lower position, or the same position and
/// listed earlier.
pub open spec fn reel_before(items: Seq<SpotReelItemResponse>, x: usize, y: usize) -> bool {
    items[x as int].position < items[y as int].position || (items[x as int].position
        == items[y as int].position && x < y)
}

/// The order in which a reel's items are played.
pub fn reel_order(items: &[SpotReelItemResponse]) -> (order: Vec<usize>)
    ensures
        sorted_by_position(items@, order@),
{
    let mut order: Vec<usize> = Vec::new();
    let mut i: usize = 0;
    while i < items.len()
        invariant
            i <= items@.len(),
            order@.len() == i,
            forall|k: int| 0 <= k < order@.len() ==> (#[trigger] order@[k]) < i,
            forall|a: int, b: int| #![trigger order@[a], order@[b]] 0 <= a < b < order@.len() ==> order@[a] != order@[b],
            forall|a: int, b: int| #![trigger order@[a], order@[b]] 0 <= a < b < order@.len() ==> reel_before(items@, order@[a], order@[b]),
        decreases items@.len() - i,
    {
        let p = items[i].position;
        let mut j: usize = order.len();
        while j > 0 && items[order[j - 1]].position > p
            invariant
                j <= order@.len(),
                order@.len() == i,
                i < items@.len(),
                p == items@[i as int].position,
                forall|k: int| 0 <= k < order@.len() ==> (#[trigger] order@[k]) < i,
                forall|k: int| j <= k < order@.len() ==> items@[(#[trigger] order@[k]) as int].position > p,
            decreases j,
        {
            j = j - 1;
        }
        let ghost before = order@;
        order.insert(j, i);
        proof {
            assert(order@ == before.insert(j as int, i));
            assert forall|k: int| 0 <= k < order@.len() implies (#[trigger] order@[k]) < i + 1 by {
                if k < j {
                    assert(order@[k] == before[k]);
                } else if k > j {
                    assert(order@[k] == before[k - 1]);
                }
            }
            assert forall|a: int, b: int| #![trigger order@[a], order@[b]] 0 <= a < b < order@.len() implies order@[a] != order@[b] by {
                if a < j && b < j {
                    assert(order@[a] == before[a] && order@[b] == before[b]);
                } else if a < j && b == j {
                    assert(order@[a] == before[a]);
                } else if a < j && b > j {
                    assert(order@[a] == before[a] && order@[b] == before[b - 1]);
                } else if a == j {
                    assert(order@[b] == before[b - 1]);
                } else {
                    assert(order@[a] == before[a - 1] && order@[b] == before[b - 1]);
                }
            }
            assert forall|a: int, b: int| #![trigger order@[a], order@[b]] 0 <= a < b < order@.len() implies reel_before(items@, order@[a], order@[b]) by {
                if a < j && b < j {
                    assert(order@[a] == before[a] && order@[b] == before[b]);
                } else if a < j && b == j {
                    assert(order@[a] == before[a]);
                    assert(before[a] < i);
                    if j > 0 {
                        assert(items@[before[j - 1] as int].position <= p);
                        if a < j - 1 {
                            assert(before[a] != before[j - 1]);
                        }
                    }
                } else if a < j && b > j {
                    assert(order@[a] == before[a] && order@[b] == before[b - 1]);
                } else if a == j {
                    assert(order@[b] == before[b - 1]);
                    assert(items@[before[b - 1] as int].position > p);
                } else {
                    assert(order@[a] == before[a - 1] && order@[b] == before[b - 1]);
                }
            }
        }
        i = i + 1;
    }
    order
}

/// The content of the last script received with id `id`.
pub open spec fn script_content_of(scripts: Seq<ServerScript>, id: i32) -> Option<Seq<char>>
    decreases scripts.len(),
{
    if scripts.len() == 0 {
        None
    } else if scripts.last().id == id {
        Some(scripts.last().script_content@)
    } else {
        script_content_of(scripts.drop_last(), id)
    }
}

/// The id of the last script received with name `name`.
pub open spec fn script_id_of(scripts: Seq<ServerScript>, name: Seq<char>) -> Option<i32>
    decreases scripts.len(),
{
    if scripts.len() == 0 {
        None
    } else if scripts.last().name@ == name {
        Some(scripts.last().id)
    } else {
        script_id_of(scripts.drop_last(), name)
    }
}

/// The scripts a node has been sent, by id and by name.
pub struct ScriptCatalog {
    scripts: Vec<ServerScript>,
}

impl ScriptCatalog {
    pub closed spec fn received(&self) -> Seq<ServerScript> {
        self.scripts@
    }

    pub fn new() -> (r: Self)
        ensures
            r.received().len() == 0,
    {
        ScriptCatalog { scripts: Vec::new() }
    }

    /// Records a script; it replaces earlier ones with its id or name.
    pub fn add(&mut self, script: ServerScript)
        ensures
            final(self).received() == old(self).received().push(script),
    {
        self.scripts.push(script);
    }

    /// The content of script `id`.
    pub fn content(&self, id: i32) -> (r: Option<String>)
        ensures
            opt_view(r) == script_content_of(self.received(), id),
    {
        let mut i = self.scripts.len();
        assert(self.scripts@.take(i as int) =~= self.scripts@);
        while i > 0
            invariant
                i <= self.scripts@.len(),
                script_content_of(self.scripts@, id) == script_content_of(self.scripts@.take(i as int), id),
            decreases i,
        {
            let j = i - 1;
            proof {
                assert(self.scripts@.take(i as int).drop_last() =~= self.scripts@.take(j as int));
                assert(self.scripts@.take(i as int).last() == self.scripts@[j as int]);
            }
            if self.scripts[j].id == id {
                return Some(owned(self.scripts[j].script_content.as_str()));
            }
            i = j;
        }
        None
    }

    /// The id of the script named `name`.
    pub fn id_named(&self, name: &str) -> (r: Option<i32>)
        ensures
            r == script_id_of(self.received(), name@),
    {
        let mut i = self.scripts.len();
        assert(self.scripts@.take(i as int) =~= self.scripts@);
        while i > 0
            invariant
                i <= self.scripts@.len(),
                script_id_of(self.scripts@, name@) == script_id_of(self.scripts@.take(i as int), name@),
            decreases i,
        {
            let j = i - 1;
            proof {
                assert(self.scripts@.take(i as int).drop_last() =~= self.scripts@.take(j as int));
                assert(self.scripts@.take(i as int).last() == self.scripts@[j as int]);
            }
            if crate::text::str_eq(self.scripts[j].name.as_str(), name) {
                return Some(self.scripts[j].id);
            }
            i = j;
        }
        None
    }
}

/// What `serde_json::from_str::<Vec<String>>` reads from `s`.
pub uninterp spec fn json_strings(s: Seq<char>) -> Option<Seq<Seq<char>>>;

/// What `serde_json::from_str::<Vec<i32>>` reads from `s`.
pub uninterp spec fn json_ints(s: Seq<char>) -> Option<Seq<i32>>;

/// Reads a JSON array of strings with `serde_json::from_str`.
#[verifier::external_body]
fn parse_json_strings(s: &str) -> (r: Option<Vec<String>>)
    ensures
        json_strings(s@) == match r {
            Some(v) => Some(crate::text::views(v@)),
            None => None,
        },
{
    serde_json::from_str::<Vec<String>>(s).ok()
}

/// Reads a JSON array of integers with `serde_json::from_str`.
#[verifier::external_body]
fn parse_json_ints(s: &str) -> (r: Option<Vec<i32>>)
    ensures
        json_ints(s@) == match r {
            Some(v) => Some(v@),
            None => None,
        },
{
    serde_json::from_str::<Vec<i32>>(s).ok()
}

/// The ids of the named scripts that are known, in order.
pub open spec fn named_ids(names: Seq<Seq<char>>, scripts: Seq<ServerScript>) -> Seq<i32>
    decreases names.len(),
{
    if names.len() == 0 {
        seq![]
    } else {
        let rest = named_ids(names.drop_last(), scripts);
        match script_id_of(scripts, names.last()) {
            Some(id) => rest.push(id),
            None => rest,
        }
    }
}

/// The global scripts that a setting names: a JSON list of script names, else
/// a JSON list of ids, else a single id.
pub open spec fn global_ids(setting: Seq<char>, scripts: Seq<ServerScript>) -> Seq<i32> {
    match json_strings(setting) {
        Some(names) => named_ids(names, scripts),
        None => match json_ints(setting) {
            Some(ids) => ids,
            None => match parsed_i32(setting) {
                Some(v) => seq![v as i32],
                None => seq![],
            },
        },
    }
}

/// Resolves the `global_active_scripts` setting to script ids.
pub fn global_script_ids(setting: &str, catalog: &ScriptCatalog) -> (r: Vec<i32>)
    ensures
        r@ == global_ids(setting@, catalog.received()),
{
    match parse_json_strings(setting) {
        Some(names) => {
            let mut out: Vec<i32> = Vec::new();
            let mut i: usize = 0;
            while i < names.len()
                invariant
                    i <= names@.len(),
                    out@ == named_ids(crate::text::views(names@.take(i as int)), catalog.received()),
                decreases names@.len() - i,
            {
                proof {
                    let t = crate::text::views(names@.take(i as int + 1));
                    assert(t.drop_last() =~= crate::text::views(names@.take(i as int)));
                    assert(t.last() == names@[i as int]@);
                }
                match catalog.id_named(names[i].as_str()) {
                    Some(id) => out.push(id),
                    None => {},
                }
                i = i + 1;
            }
            assert(names@.take(names@.len() as int) =~= names@);
            out
        },
        None => match parse_json_ints(setting) {
            Some(ids) => ids,
            None => {
                let cs = chars_of(setting);
                match parse_i32(cs.as_slice()) {
                    Some(v) => {
                        let mut out: Vec<i32> = Vec::new();
                        out.push(v);
                        assert(out@ =~= seq![v]);
                        out
                    },
                    None => Vec::new(),
                }
            },
        },
    }
}

/// One entry of a content item's transformer list, as far as its script id
/// goes: an integer, an object (with what its `id` and `script_id` keys hold,
/// `Some(None)` for a key that is present but not an integer), or anything else.
pub enum TransformerEntry {
    Integer(i64),
    Object { id: Option<Option<i64>>, script_id: Option<Option<i64>> },
    Other,
}

/// The script an entry names: the integer itself, or the object's `id` key
/// (its `script_id` key when there is no `id`), cut to 32 bits.
pub open spec fn entry_script(e: TransformerEntry) -> Option<i32> {
    match e {
        TransformerEntry::Integer(i) => Some(i as i32),
        TransformerEntry::Object { id, script_id } => match (if id is Some { id } else { script_id }) {
            Some(Some(v)) => Some(v as i32),
            _ => None,
        },
        TransformerEntry::Other => None,
    }
}

/// A script to run around a piece of content: its text and, for a transformer
/// entry, the entry's index (whose arguments go with it).
pub struct ScriptRun {
    pub content: String,
    pub entry: Option<usize>,
}

/// The runs for the global scripts, in order, those not known skipped.
pub open spec fn global_runs(ids: Seq<i32>, scripts: Seq<ServerScript>) -> Seq<(Seq<char>, Option<int>)>
    decreases ids.len(),
{
    if ids.len() == 0 {
        seq![]
    } else {
        let rest = global_runs(ids.drop_last(), scripts);
        match script_content_of(scripts, ids.last()) {
            Some(c) => rest.push((c, None)),
            None => rest,
        }
    }
}

/// The runs for the transformer entries, in order, those naming no known script skipped.
pub open spec fn entry_runs(entries: Seq<TransformerEntry>, scripts: Seq<ServerScript>) -> Seq<(Seq<char>, Option<int>)>
    decreases entries.len(),
{
    if entries.len() == 0 {
        seq![]
    } else {
        let rest = entry_runs(entries.drop_last(), scripts);
        match entry_script(entries.last()) {
            Some(id) => match script_content_of(scripts, id) {
                Some(c) => rest.push((c, Some(entries.len() - 1))),
                None => rest,
            },
            None => rest,
        }
    }
}

pub open spec fn run_views(v: Seq<ScriptRun>) -> Seq<(Seq<char>, Option<int>)> {
    v.map_values(|r: ScriptRun| (r.content@, match r.entry {
        Some(i) => Some(i as int),
        None => None,
    }))
}

fn entry_script_exec(e: &TransformerEntry) -> (r: Option<i32>)
    ensures
        r == entry_script(*e),
{
    match e {
        TransformerEntry::Integer(i) => Some(*i as i32),
        TransformerEntry::Object { id, script_id } => {
            let key = if id.is_some() { id } else { script_id };
            match key {
                Some(Some(v)) => Some(*v as i32),
                _ => None,
            }
        },
        TransformerEntry::Other => None,
    }
}

/// The scripts that run around a piece of content: the global ones first,
/// then those of its transformer list.
pub fn scripts_to_run(global: &[i32], entries: &[TransformerEntry], catalog: &ScriptCatalog) -> (r: Vec<ScriptRun>)
    ensures
        run_views(r@) == global_runs(global@, catalog.received()) + entry_runs(entries@, catalog.received()),
{
    let ghost sc = catalog.received();
    let mut out: Vec<ScriptRun> = Vec::new();
    let mut i: usize = 0;
    while i < global.len()
        invariant
            i <= global@.len(),
            sc == catalog.received(),
            run_views(out@) == global_runs(global@.take(i as int), sc),
        decreases global@.len() - i,
    {
        proof {
            assert(global@.take(i as int + 1).drop_last() =~= global@.take(i as int));
            assert(global@.take(i as int + 1).last() == global@[i as int]);
        }
        match catalog.content(global[i]) {
            Some(c) => {
                out.push(ScriptRun { content: c, entry: None });
                assert(run_views(out@) =~= global_runs(global@.take(i as int + 1), sc));
            },
            None => {},
        }
        i = i + 1;
    }
    assert(global@.take(global@.len() as int) =~= global@);
    let ghost head = run_views(out@);
    let mut k: usize = 0;
    assert(head + entry_runs(entries@.take(0), sc) =~= head);
    while k < entries.len()
        invariant
            k <= entries@.len(),
            sc == catalog.received(),
            head == global_runs(global@, sc),
            run_views(out@) == head + entry_runs(entries@.take(k as int), sc),
        decreases entries@.len() - k,
    {
        proof {
            assert(entries@.take(k as int + 1).drop_last() =~= entries@.take(k as int));
            assert(entries@.take(k as int + 1).last() == entries@[k as int]);
        }
        match entry_script_exec(&entries[k]) {
            Some(id) => match catalog.content(id) {
                Some(c) => {
                    let ghost before = out@;
                    let ghost cv = c@;
                    out.push(ScriptRun { content: c, entry: Some(k) });
                    proof {
                        let t = entries@.take(k as int + 1);
                        assert(t.len() - 1 == k);
                        assert(entry_script(t.last()) == Some(id));
                        assert(script_content_of(sc, id) == Some(cv));
                        assert(entry_runs(t, sc) == entry_runs(entries@.take(k as int), sc).push((cv, Some(k as int))));
                        assert(run_views(out@) =~= run_views(before).push((cv, Some(k as int))));
                        assert(run_views(out@) =~= head + entry_runs(t, sc));
                    }
                },
                None => {},
            },
            None => {},
        }
        k = k + 1;
    }
    assert(entries@.take(entries@.len() as int) =~= entries@);
    out
}

/// A cached path stands for what the player reports: the same text, or the
/// same file name (`Path::file_name` of both, which may both be missing).
pub open spec fn same_media(cached: Seq<char>, playing: Seq<char>) -> bool {
    cached == playing || file_name_of(cached) == file_name_of(playing)
}

impl ContentCache {
    /// The ids with an entry, in order of entry.
    pub closed spec fn entry_ids(&self) -> Seq<i32> {
        self.items@.map_values(|c: ServerContentItem| c.id)
    }

    /// Some known content's path stands for `playing`.
    pub open spec fn knows_media(&self, playing: Seq<char>) -> bool {
        exists|i: int| 0 <= i < self.entry_ids().len() && media_match(#[trigger] self.path(self.entry_ids()[i]), playing)
    }

    fn entry_count(&self) -> (n: usize)
        ensures
            n == self.entry_ids().len(),
    {
        self.items.len()
    }

    fn entry_id(&self, i: usize) -> (id: i32)
        requires
            i < self.entry_ids().len(),
        ensures
            id == self.entry_ids()[i as int],
    {
        self.items[i].id
    }
}

/// A known path that stands for `playing`.
pub open spec fn media_match(cached: Option<Seq<char>>, playing: Seq<char>) -> bool {
    match cached {
        Some(p) => same_media(p, playing),
        None => false,
    }
}

/// The report when the player names `p` (see `reported_content`).
pub open spec fn report_for(current: Option<i32>, p: Seq<char>, cache: ContentCache, r: Option<i32>) -> bool {
    if current is Some && cache.path(current->0) == Some(p) {
        r == current
    } else if cache.knows_media(p) {
        r is Some && media_match(cache.path(r->0), p)
    } else {
        r == current
    }
}

fn same_media_exec(cached: &str, playing: &str) -> (b: bool)
    ensures
        b == same_media(cached@, playing@),
{
    if crate::text::str_eq(cached, playing) {
        return true;
    }
    match (path_file_name(cached), path_file_name(playing)) {
        (Some(a), Some(b)) => crate::text::chars_eq(a.as_slice(), b.as_slice()),
        (None, None) => true,
        _ => false,
    }
}

/// The content a node reports as playing, from what it last started and what
/// the player says. An idle player, or one that names no file, plays nothing.
/// Otherwise the started content stands if its path is the player's; else
/// some known content whose path stands for the player's file; else the
/// started content stays. Which of several matching contents is named is not
/// fixed.
pub fn reported_content(current: Option<i32>, idle: bool, playing_path: Option<&str>, cache: &ContentCache) -> (r: Option<i32>)
    ensures
        idle ==> r is None,
        !idle && playing_path is None ==> r is None,
        !idle && playing_path is Some ==> report_for(current, playing_path->0@, *cache, r),
{
    if idle {
        return None;
    }
    let p = match playing_path {
        Some(p) => p,
        None => {
            return None;
        },
    };
    let matches_current = match current {
        Some(c) => match cache.path_of(c) {
            Some(q) => crate::text::str_eq(q.as_str(), p),
            None => false,
        },
        None => false,
    };
    if matches_current {
        return current;
    }
    assert(!(current is Some && cache.path(current->0) == Some(p@)));
    let n = cache.entry_count();
    let mut i: usize = 0;
    while i < n
        invariant
            i <= n,
            n == cache.entry_ids().len(),
            forall|k: int| 0 <= k < i ==> !media_match(#[trigger] cache.path(cache.entry_ids()[k]), p@),
            !idle,
            playing_path == Some(p),
            !(current is Some && cache.path(current->0) == Some(p@)),
        decreases n - i,
    {
        let id = cache.entry_id(i);
        match cache.path_of(id) {
            Some(q) => {
                if same_media_exec(q.as_str(), p) {
                    assert(media_match(cache.path(cache.entry_ids()[i as int]), p@));
                    assert(cache.knows_media(p@));
                    return Some(id);
                }
            },
            None => {},
        }
        i = i + 1;
    }
    current
}

/// A script call failed because the function does not exist (the engine's
/// message says "not found").
pub open spec fn missing_function(err: Seq<char>) -> bool {
    crate::text::contains_text(err, "not found"@)
}

/// What follows a hook call with the settings as its argument.
#[derive(Debug, PartialEq, Eq, Structural)]
pub enum HookFollowUp {
    /// It ran.
    Done,
    /// No such one-argument function: try again without arguments.
    RetryWithoutArgs,
    /// It failed for another reason.
    Failed,
}

/// Decides on a hook call's outcome (`None` when it ran, else the error's message).
pub fn hook_follow_up(error: Option<&str>) -> (r: HookFollowUp)
    ensures
        r == (match error {
            None => HookFollowUp::Done,
            Some(e) => if missing_function(e@) { HookFollowUp::RetryWithoutArgs } else { HookFollowUp::Failed },
        }),
{
    match error {
        None => HookFollowUp::Done,
        Some(e) => if crate::text::str_contains(e, "not found") {
            HookFollowUp::RetryWithoutArgs
        } else {
            HookFollowUp::Failed
        },
    }
}

/// How a `transform` call ended.
#[derive(Debug, PartialEq, Eq, Structural)]
pub enum TransformReport {
    /// The function ran; its returned settings apply.
    Applied,
    /// No `transform` function, but the script set legacy globals.
    LegacyOnly,
    /// No `transform` function and no legacy globals: the script did nothing.
    NoEffect,
    /// The function failed.
    Failed,
}

/// Decides on a `transform` call's outcome, given whether legacy globals were found.
pub fn transform_report(error: Option<&str>, legacy_found: bool) -> (r: TransformReport)
    ensures
        r == (match error {
            None => TransformReport::Applied,
            Some(e) => if missing_function(e@) {
                if legacy_found { TransformReport::LegacyOnly } else { TransformReport::NoEffect }
            } else {
                TransformReport::Failed
            },
        }),
{
    match error {
        None => TransformReport::Applied,
        Some(e) => if crate::text::str_contains(e, "not found") {
            if legacy_found { TransformReport::LegacyOnly } else { TransformReport::NoEffect }
        } else {
            TransformReport::Failed
        },
    }
}


/// New content always takes over: when the block on air names other content
/// than the one last started, the loop switches, whether or not something was
/// playing; the same content is kept; with nothing on air only what was
/// playing is stopped. Once switched to a block's content, the next tick on
/// that block keeps it.
pub proof fn lemma_new_content_switches(last: Option<i32>, block: Option<ScheduleBlock>)
    ensures
        block matches Some(b) && b.content_id != last ==> step_for(last, block) == PlaybackStep::Switch,
        block matches Some(b) && b.content_id == last ==> step_for(last, block) == PlaybackStep::Keep,
        block is None ==> (step_for(last, block) == PlaybackStep::Stop <==> last is Some),
        block is None && last is None ==> step_for(last, block) == PlaybackStep::Keep,
        block matches Some(b) ==> step_for(b.content_id, block) == PlaybackStep::Keep,
{
}

} // verus!
