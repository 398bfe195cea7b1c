//! A node's copy of its schedule: the blocks of each day it has been sent,
//! and the block that covers a given moment.
use vstd::prelude::*;

verus! {

/// One block as a node plays it. Times are seconds from midnight.
pub struct ScheduleBlock {
    pub start_time: u32,
    pub duration_minutes: i32,
    pub content_id: Option<i32>,
    pub content_path: Option<String>,
    pub script_id: Option<i32>,
}

/// The blocks of one day (a day number).
pub struct DaySchedule {
    pub date: i32,
    pub blocks: Vec<ScheduleBlock>,
}

/// The blocks a node knows, by day.
pub struct ScheduleCache {
    days: Vec<DaySchedule>,
}

/// The blocks recorded for `date`, the latest entry winning.
pub open spec fn day_lookup(days: Seq<DaySchedule>, date: i32) -> Option<Seq<ScheduleBlock>>
    decreases days.len(),
{
    if days.len() == 0 {
        None
    } else if days.last().date == date {
        Some(days.last().blocks@)
    } else {
        day_lookup(days.drop_last(), date)
    }
}

/// Block `b` is on air at second `t` of its day.
pub open spec fn covers_second(b: ScheduleBlock, t: int) -> bool {
    b.start_time <= t < b.start_time + b.duration_minutes * 60
}

/// Block `i` is the first of `bs` on air at second `t`.
pub open spec fn first_cover_at(bs: Seq<ScheduleBlock>, t: int, i: int) -> bool {
    0 <= i < bs.len() && covers_second(bs[i], t) && forall|j: int| 0 <= j < i ==> !covers_second(#[trigger] bs[j], t)
}

/// A block whose end can be computed in seconds of a `u32`.
pub open spec fn block_fits(b: ScheduleBlock) -> bool {
    0 <= b.duration_minutes && b.start_time + b.duration_minutes * 60 <= u32::MAX
}

impl ScheduleCache {
    /// The blocks known for `date`.
    pub closed spec fn day(&self, date: i32) -> Option<Seq<ScheduleBlock>> {
        day_lookup(self.days@, date)
    }

    pub fn new() -> (r: Self)
        ensures
            forall|d: i32| r.day(d) is None,
    {
        ScheduleCache { days: Vec::new() }
    }

    /// Replaces the blocks of `date`.
    pub fn update(&mut self, date: i32, blocks: Vec<ScheduleBlock>)
        ensures
            final(self).day(date) == Some(blocks@),
            forall|d: i32| d != date ==> final(self).day(d) == old(self).day(d),
    {
        let ghost b = blocks@;
        self.days.push(DaySchedule { date, blocks });
        proof {
            assert(self.days@.drop_last() == old(self).days@);
        }
    }

    fn find(&self, date: i32) -> (r: Option<usize>)
        ensures
            r matches Some(i) ==> i < self.days@.len() && self.day(date) == Some(self.days@[i as int].blocks@),
            r is None ==> self.day(date) is None,
    {
        let mut i = self.days.len();
        assert(self.days@.take(i as int) =~= self.days@);
        while i > 0
            invariant
                i <= self.days@.len(),
                day_lookup(self.days@, date) == day_lookup(self.days@.take(i as int), date),
            decreases i,
        {
            let j = i - 1;
            proof {
                assert(self.days@.take(i as int).drop_last() =~= self.days@.take(j as int));
                assert(self.days@.take(i as int).last() == self.days@[j as int]);
            }
            if self.days[j].date == date {
                return Some(j);
            }
            i = j;
        }
        None
    }

    /// The blocks known for `date`, if any.
    pub fn get_blocks_for_date(&self, date: i32) -> (r: Option<&Vec<ScheduleBlock>>)
        ensures
            match r {
                Some(v) => self.day(date) == Some(v@),
                None => self.day(date) is None,
            },
    {
        match self.find(date) {
            Some(i) => Some(&self.days[i].blocks),
            None => None,
        }
    }

    /// The first block of `date` that is on air at second `time` of the day.
    pub fn get_current_block(&self, date: i32, time: u32) -> (r: Option<&ScheduleBlock>)
        requires
            self.day(date) matches Some(bs) ==> forall|i: int| 0 <= i < bs.len() ==> block_fits(#[trigger] bs[i]),
        ensures
            self.day(date) is None ==> r is None,
            self.day(date) is Some && r is Some ==> exists|i: int|
                #[trigger] first_cover_at(self.day(date)->0, time as int, i) && self.day(date)->0[i] == *r->0,
            self.day(date) is Some && r is None ==> forall|j: int|
                0 <= j < self.day(date)->0.len() ==> !covers_second(#[trigger] self.day(date)->0[j], time as int),
    {
        let blocks = match self.get_blocks_for_date(date) {
            Some(b) => b,
            None => {
                return None;
            },
        };
        let mut i: usize = 0;
        assert forall|k: int| 0 <= k < blocks@.len() implies block_fits(#[trigger] blocks@[k]) by {
            let bs = self.day(date)->0;
            assert(bs == blocks@);
            assert(block_fits(bs[k]));
        }
        while i < blocks.len()
            invariant
                i <= blocks@.len(),
                self.day(date) == Some(blocks@),
                forall|k: int| 0 <= k < blocks@.len() ==> block_fits(#[trigger] blocks@[k]),
                forall|j: int| 0 <= j < i ==> !covers_second(#[trigger] blocks@[j], time as int),
            decreases blocks@.len() - i,
        {
            let b = &blocks[i];
            assert(block_fits(blocks@[i as int]));
            let start = b.start_time;
            let end = start + (b.duration_minutes as u32) * 60;
            if time >= start && time < end {
                assert(blocks@[i as int] == *b && covers_second(blocks@[i as int], time as int));
                assert(first_cover_at(blocks@, time as int, i as int));
                assert(self.day(date)->0 == blocks@);
                assert(first_cover_at(self.day(date)->0, time as int, i as int));
                assert(self.day(date)->0[i as int] == *b);
                return Some(b);
            }
            i = i + 1;
        }
        None
    }
}

/// A block as the server sends it. Dates are day numbers, times seconds
/// from midnight; a weekly block names its weekday, 0 for Monday.
pub struct ServerScheduleBlock {
    pub content_id: Option<i32>,
    pub day_of_week: Option<i32>,
    pub specific_date: Option<i32>,
    pub start_time: u32,
    pub duration_minutes: i32,
    pub script_id: Option<i32>,
}

/// Content as the server describes it to a node.
pub struct ServerContentItem {
    pub id: i32,
    pub content_path: String,
    pub transformer_scripts: Option<String>,
}

/// A script as the server sends it to a node.
pub struct ServerScript {
    pub id: i32,
    pub name: String,
    pub script_content: String,
    pub script_type: String,
}

/// The path of content `id` among the items sent, the last mention winning.
pub open spec fn content_path_of(items: Seq<ServerContentItem>, id: i32) -> Option<Seq<char>>
    decreases items.len(),
{
    if items.len() == 0 {
        None
    } else if items.last().id == id {
        Some(items.last().content_path@)
    } else {
        content_path_of(items.drop_last(), id)
    }
}

/// The day a server block is filed under when it arrives on day `today`
/// (weekday `today_weekday`, 0 for Monday): its own date, else today when
/// its weekday is today's, else none.
pub open spec fn filed_under(b: ServerScheduleBlock, today: i32, today_weekday: int) -> Option<i32> {
    match b.specific_date {
        Some(d) => Some(d),
        None => match b.day_of_week {
            Some(w) => if w == today_weekday { Some(today) } else { None },
            None => None,
        },
    }
}

/// The node block made from a server block, its path looked up among the items.
pub open spec fn node_block_matches(nb: ScheduleBlock, b: ServerScheduleBlock, items: Seq<ServerContentItem>) -> bool {
    &&& nb.start_time == b.start_time
    &&& nb.duration_minutes == b.duration_minutes
    &&& nb.content_id == b.content_id
    &&& nb.script_id == b.script_id
    &&& crate::tts::opt_view(nb.content_path) == match b.content_id {
        Some(c) => content_path_of(items, c),
        None => None,
    }
}

fn lookup_path(items: &[ServerContentItem], id: i32) -> (r: Option<String>)
    ensures
        crate::tts::opt_view(r) == content_path_of(items@, id),
{
    let mut i = items.len();
    assert(items@.take(i as int) =~= items@);
    while i > 0
        invariant
            i <= items@.len(),
            content_path_of(items@, id) == content_path_of(items@.take(i as int), id),
        decreases i,
    {
        let j = i - 1;
        proof {
            assert(items@.take(i as int).drop_last() =~= items@.take(j as int));
            assert(items@.take(i as int).last() == items@[j as int]);
        }
        if items[j].id == id {
            return Some(crate::text::owned(items[j].content_path.as_str()));
        }
        i = j;
    }
    None
}

/// The node block for a server block.
pub fn node_block(b: &ServerScheduleBlock, items: &[ServerContentItem]) -> (r: ScheduleBlock)
    ensures
        node_block_matches(r, *b, items@),
{
    let content_path = match b.content_id {
        Some(c) => lookup_path(items, c),
        None => None,
    };
    ScheduleBlock {
        start_time: b.start_time,
        duration_minutes: b.duration_minutes,
        content_id: b.content_id,
        content_path,
        script_id: b.script_id,
    }
}

/// The blocks of `date` among those sent, in the order sent.
pub open spec fn filed_indices(blocks: Seq<ServerScheduleBlock>, date: i32, today: i32, today_weekday: int) -> Seq<int>
    decreases blocks.len(),
{
    if blocks.len() == 0 {
        seq![]
    } else {
        let rest = filed_indices(blocks.drop_last(), date, today, today_weekday);
        if filed_under(blocks.last(), today, today_weekday) == Some(date) {
            rest.push(blocks.len() - 1)
        } else {
            rest
        }
    }
}

/// The cache holds, for `d`, node blocks made from the server blocks at `idx`.
pub open spec fn day_holds(day: Option<Seq<ScheduleBlock>>, blocks: Seq<ServerScheduleBlock>, items: Seq<ServerContentItem>, idx: Seq<int>) -> bool {
    day matches Some(bs) && bs.len() == idx.len() && forall|k: int|
        0 <= k < idx.len() ==> node_block_matches(#[trigger] bs[k], blocks[idx[k]], items)
}

proof fn lemma_filed_bounds(blocks: Seq<ServerScheduleBlock>, date: i32, today: i32, wd: int)
    ensures
        forall|k: int| 0 <= k < filed_indices(blocks, date, today, wd).len() ==>
            0 <= #[trigger] filed_indices(blocks, date, today, wd)[k] < blocks.len(),
        filed_indices(blocks, date, today, wd).len() > 0 <==> exists|k: int|
            0 <= k < blocks.len() && filed_under(#[trigger] blocks[k], today, wd) == Some(date),
    decreases blocks.len(),
{
    if blocks.len() > 0 {
        let init = blocks.drop_last();
        lemma_filed_bounds(init, date, today, wd);
        assert forall|k: int| 0 <= k < init.len() implies #[trigger] init[k] == blocks[k] by {}
        if filed_indices(blocks, date, today, wd).len() > 0 {
            if filed_under(blocks.last(), today, wd) != Some(date) {
                let k = choose|k: int| 0 <= k < init.len() && filed_under(#[trigger] init[k], today, wd) == Some(date);
                assert(blocks[k] == init[k]);
            }
        }
        if exists|k: int| 0 <= k < blocks.len() && filed_under(#[trigger] blocks[k], today, wd) == Some(date) {
            let k = choose|k: int| 0 <= k < blocks.len() && filed_under(#[trigger] blocks[k], today, wd) == Some(date);
            if k < blocks.len() - 1 {
                assert(init[k] == blocks[k]);
            }
        }
    }
}

fn filed_under_exec(b: &ServerScheduleBlock, today: i32, today_weekday: u32) -> (r: Option<i32>)
    requires
        today_weekday < 7,
    ensures
        r == filed_under(*b, today, today_weekday as int),
{
    match b.specific_date {
        Some(d) => Some(d),
        None => match b.day_of_week {
            Some(w) => if w == today_weekday as i32 { Some(today) } else { None },
            None => None,
        },
    }
}

fn blocks_for_day(blocks: &[ServerScheduleBlock], items: &[ServerContentItem], date: i32, today: i32, today_weekday: u32) -> (r: Vec<ScheduleBlock>)
    requires
        today_weekday < 7,
    ensures
        day_holds(Some(r@), blocks@, items@, filed_indices(blocks@, date, today, today_weekday as int)),
{
    let ghost wd = today_weekday as int;
    let mut out: Vec<ScheduleBlock> = Vec::new();
    let mut i: usize = 0;
    while i < blocks.len()
        invariant
            today_weekday < 7,
            wd == today_weekday as int,
            i <= blocks@.len(),
            day_holds(Some(out@), blocks@, items@, filed_indices(blocks@.take(i as int), date, today, wd)),
        decreases blocks@.len() - i,
    {
        proof {
            assert(blocks@.take(i as int + 1).drop_last() =~= blocks@.take(i as int));
            assert(blocks@.take(i as int + 1).last() == blocks@[i as int]);
            lemma_filed_bounds(blocks@.take(i as int), date, today, wd);
        }
        let ghost before = out@;
        let ghost idx0 = filed_indices(blocks@.take(i as int), date, today, wd);
        if filed_under_exec(&blocks[i], today, today_weekday) == Some(date) {
            let nb = node_block(&blocks[i], items);
            out.push(nb);
            proof {
                let idx1 = idx0.push(i as int);
                assert(filed_indices(blocks@.take(i as int + 1), date, today, wd) == idx1);
                assert forall|k: int| 0 <= k < idx1.len() implies node_block_matches(#[trigger] out@[k], blocks@[idx1[k]], items@) by {
                    if k < idx0.len() {
                        assert(out@[k] == before[k]);
                        assert(idx1[k] == idx0[k]);
                        assert(node_block_matches(before[k], blocks@.take(i as int)[idx0[k]], items@));
                        assert(blocks@.take(i as int)[idx0[k]] == blocks@[idx0[k]]);
                    }
                }
            }
        } else {
            proof {
                assert forall|k: int| 0 <= k < idx0.len() implies node_block_matches(#[trigger] out@[k], blocks@[idx0[k]], items@) by {
                    assert(node_block_matches(before[k], blocks@.take(i as int)[idx0[k]], items@));
                    assert(blocks@.take(i as int)[idx0[k]] == blocks@[idx0[k]]);
                }
            }
        }
        i = i + 1;
    }
    proof {
        assert(blocks@.take(blocks@.len() as int) =~= blocks@);
    }
    out
}

fn contains_date(v: &Vec<i32>, d: i32) -> (b: bool)
    ensures
        b == v@.contains(d),
{
    let mut i: usize = 0;
    while i < v.len()
        invariant
            i <= v@.len(),
            forall|k: int| 0 <= k < i ==> v@[k] != d,
        decreases v@.len() - i,
    {
        if v[i] == d {
            assert(v@[i as int] == d);
            return true;
        }
        i = i + 1;
    }
    false
}

/// Files the blocks the server sent under the day each belongs to and
/// replaces those days in the cache; days with no block keep what they had.
pub fn file_schedule(cache: &mut ScheduleCache, blocks: &[ServerScheduleBlock], items: &[ServerContentItem], today: i32, today_weekday: u32)
    requires
        today_weekday < 7,
    ensures
        forall|d: i32| {
            let idx = filed_indices(blocks@, d, today, today_weekday as int);
            if idx.len() > 0 {
                day_holds(#[trigger] final(cache).day(d), blocks@, items@, idx)
            } else {
                final(cache).day(d) == old(cache).day(d)
            }
        },
{
    let ghost wd = today_weekday as int;
    let mut dates: Vec<i32> = Vec::new();
    let mut i: usize = 0;
    while i < blocks.len()
        invariant
            today_weekday < 7,
            wd == today_weekday as int,
            i <= blocks@.len(),
            forall|k: int| 0 <= k < i ==> match filed_under(#[trigger] blocks@[k], today, wd) {
                Some(d) => dates@.contains(d),
                None => true,
            },
            forall|j: int| 0 <= j < dates@.len() ==> exists|k: int|
                0 <= k < blocks@.len() && filed_under(#[trigger] blocks@[k], today, wd) == Some(#[trigger] dates@[j]),
            forall|a: int, b: int| 0 <= a < b < dates@.len() ==> dates@[a] != dates@[b],
        decreases blocks@.len() - i,
    {
        match filed_under_exec(&blocks[i], today, today_weekday) {
            Some(d) => {
                let ghost before = dates@;
                if !contains_date(&dates, d) {
                    dates.push(d);
                    proof {
                        assert(filed_under(blocks@[i as int], today, wd) == Some(dates@[dates@.len() - 1]));
                    }
                }
                proof {
                    assert(dates@.contains(d)) by {
                        if before.contains(d) {
                            assert(dates@ == before);
                        } else {
                            assert(dates@[dates@.len() - 1] == d);
                        }
                    }
                    assert forall|x: i32| before.contains(x) implies dates@.contains(x) by {
                        let q = choose|q: int| 0 <= q < before.len() && #[trigger] before[q] == x;
                        assert(dates@[q] == x);
                    }
                }
            },
            None => {},
        }
        i = i + 1;
    }
    let ghost old_cache_days = cache.days@;
    let mut j: usize = 0;
    while j < dates.len()
        invariant
            today_weekday < 7,
            wd == today_weekday as int,
            j <= dates@.len(),
            forall|a: int, b: int| 0 <= a < b < dates@.len() ==> dates@[a] != dates@[b],
            forall|d: i32| #![trigger cache.day(d)] dates@.take(j as int).contains(d) ==> day_holds(cache.day(d), blocks@, items@, filed_indices(blocks@, d, today, wd)),
            forall|d: i32| #![trigger cache.day(d)] !dates@.take(j as int).contains(d) ==> cache.day(d) == old(cache).day(d),
        decreases dates@.len() - j,
    {
        let d = dates[j];
        let v = blocks_for_day(blocks, items, d, today, today_weekday);
        cache.update(d, v);
        proof {
            assert forall|e: i32| #[trigger] dates@.take(j as int + 1).contains(e) <==> (dates@.take(j as int).contains(e) || e == d) by {
                if dates@.take(j as int + 1).contains(e) {
                    let k = choose|k: int| 0 <= k < j + 1 && #[trigger] dates@.take(j as int + 1)[k] == e;
                    if k < j {
                        assert(dates@.take(j as int)[k] == e);
                    }
                }
                if dates@.take(j as int).contains(e) {
                    let k = choose|k: int| 0 <= k < j && #[trigger] dates@.take(j as int)[k] == e;
                    assert(dates@.take(j as int + 1)[k] == e);
                }
                if e == d {
                    assert(dates@.take(j as int + 1)[j as int] == e);
                }
            }
        }
        j = j + 1;
    }
    proof {
        assert(dates@.take(dates@.len() as int) =~= dates@);
        assert forall|d: i32| filed_indices(blocks@, d, today, wd).len() > 0 implies dates@.contains(d) by {
            lemma_filed_bounds(blocks@, d, today, wd);
            let k = choose|k: int| 0 <= k < blocks@.len() && filed_under(#[trigger] blocks@[k], today, wd) == Some(d);
            assert(match filed_under(blocks@[k], today, wd) {
                Some(x) => dates@.contains(x),
                None => true,
            });
        }
        assert forall|d: i32| dates@.contains(d) implies filed_indices(blocks@, d, today, wd).len() > 0 by {
            lemma_filed_bounds(blocks@, d, today, wd);
            let q = choose|q: int| 0 <= q < dates@.len() && #[trigger] dates@[q] == d;
            assert(exists|k: int| 0 <= k < blocks@.len() && filed_under(#[trigger] blocks@[k], today, wd) == Some(dates@[q]));
        }
    }
}

} // verus!
