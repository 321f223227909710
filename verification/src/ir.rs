//! The timeline intermediate representation that the renderers consume.
//!
//! Strings are viewed as `Seq<char>`; every type has a view so that contracts can speak of
//! contents rather than of allocations.

use vstd::prelude::*;

verus! {

/// Position of a construct in the `.tdsl` source (1-based).
#[derive(Clone, Copy, Debug, PartialEq, Eq)]
pub struct SourceSpan {
    pub line: u32,
    pub col_start: u32,
    pub col_end: u32,
}

/// Optional sub-year precision of one time point.
#[derive(Clone, Copy, Debug, PartialEq, Eq)]
pub struct DateParts {
    pub month: Option<u8>,
    pub day: Option<u8>,
    pub hour: Option<u8>,
    pub minute: Option<u8>,
    pub second: Option<u8>,
    pub offset_minutes: Option<i32>,
}

/// No sub-year precision at all.
pub open spec fn no_parts() -> DateParts {
    DateParts { month: None, day: None, hour: None, minute: None, second: None, offset_minutes: None }
}

impl DateParts {
    /// Year precision only.
    pub fn year_only() -> (d: DateParts)
        ensures
            d == no_parts(),
    {
        DateParts { month: None, day: None, hour: None, minute: None, second: None, offset_minutes: None }
    }
}

pub open spec fn opt_str_view(o: Option<String>) -> Option<Seq<char>> {
    match o {
        Some(s) => Some(s@),
        None => None,
    }
}

pub open spec fn strs_view(v: Seq<String>) -> Seq<Seq<char>> {
    Seq::new(v.len(), |i: int| v[i]@)
}

pub open spec fn lanes_view(v: Seq<Lane>) -> Seq<LaneView> {
    Seq::new(v.len(), |i: int| v[i]@)
}

pub open spec fn items_view(v: Seq<Item>) -> Seq<ItemView> {
    Seq::new(v.len(), |i: int| v[i]@)
}

pub open spec fn records_view(v: Seq<ImportRecord>) -> Seq<(Seq<char>, Seq<char>, Seq<char>)> {
    Seq::new(v.len(), |i: int| v[i]@)
}

pub open spec fn sources_view(v: Seq<SourceRecord>) -> Seq<(Seq<char>, Seq<char>, Seq<char>)> {
    Seq::new(v.len(), |i: int| v[i]@)
}

/// Clones an optional string.
pub fn clone_opt_string(o: &Option<String>) -> (r: Option<String>)
    ensures
        opt_str_view(r) == opt_str_view(*o),
{
    match o {
        Some(s) => Some(s.clone()),
        None => None,
    }
}

/// Clones a list of strings.
pub fn clone_strings(v: &Vec<String>) -> (r: Vec<String>)
    ensures
        strs_view(r@) == strs_view(v@),
{
    let mut r: Vec<String> = Vec::new();
    let mut i: usize = 0;
    while i < v.len()
        invariant
            i <= v.len(),
            r.len() == i,
            forall|j: int| 0 <= j < i ==> #[trigger] r@[j]@ == v@[j]@,
        decreases v.len() - i,
    {
        let c = v[i].clone();
        r.push(c);
        i = i + 1;
    }
    assert(strs_view(r@) =~= strs_view(v@));
    r
}

/// A lane (row) of the timeline.
pub struct Lane {
    pub id: String,
    pub label: String,
    pub kind: String,
    pub order: i64,
    pub group: Option<String>,
    pub source_span: Option<SourceSpan>,
}

pub struct LaneView {
    pub id: Seq<char>,
    pub label: Seq<char>,
    pub kind: Seq<char>,
    pub order: i64,
    pub group: Option<Seq<char>>,
    pub source_span: Option<SourceSpan>,
}

impl View for Lane {
    type V = LaneView;

    open spec fn view(&self) -> LaneView {
        LaneView {
            id: self.id@,
            label: self.label@,
            kind: self.kind@,
            order: self.order,
            group: opt_str_view(self.group),
            source_span: self.source_span,
        }
    }
}

impl Clone for Lane {
    fn clone(&self) -> (r: Self)
        ensures
            r@ == self@,
    {
        Lane {
            id: self.id.clone(),
            label: self.label.clone(),
            kind: self.kind.clone(),
            order: self.order,
            group: clone_opt_string(&self.group),
            source_span: self.source_span,
        }
    }
}

/// Fields that every item kind carries.
pub struct ItemInfo {
    pub id: String,
    pub lane: String,
    pub label: String,
    pub tags: Vec<String>,
    pub source: Option<String>,
    pub origin: Option<String>,
    pub note: Option<String>,
    pub link: Option<String>,
    pub color: Option<String>,
    pub source_span: Option<SourceSpan>,
}

pub struct ItemInfoView {
    pub id: Seq<char>,
    pub lane: Seq<char>,
    pub label: Seq<char>,
    pub tags: Seq<Seq<char>>,
    pub source: Option<Seq<char>>,
    pub origin: Option<Seq<char>>,
    pub note: Option<Seq<char>>,
    pub link: Option<Seq<char>>,
    pub color: Option<Seq<char>>,
    pub source_span: Option<SourceSpan>,
}

impl View for ItemInfo {
    type V = ItemInfoView;

    open spec fn view(&self) -> ItemInfoView {
        ItemInfoView {
            id: self.id@,
            lane: self.lane@,
            label: self.label@,
            tags: strs_view(self.tags@),
            source: opt_str_view(self.source),
            origin: opt_str_view(self.origin),
            note: opt_str_view(self.note),
            link: opt_str_view(self.link),
            color: opt_str_view(self.color),
            source_span: self.source_span,
        }
    }
}

impl Clone for ItemInfo {
    fn clone(&self) -> (r: Self)
        ensures
            r@ == self@,
    {
        ItemInfo {
            id: self.id.clone(),
            lane: self.lane.clone(),
            label: self.label.clone(),
            tags: clone_strings(&self.tags),
            source: clone_opt_string(&self.source),
            origin: clone_opt_string(&self.origin),
            note: clone_opt_string(&self.note),
            link: clone_opt_string(&self.link),
            color: clone_opt_string(&self.color),
            source_span: self.source_span,
        }
    }
}

/// One timeline element: a span (lifetime), a point event, or a ranged event.
pub enum Item {
    Span { info: ItemInfo, start: i64, start_at: DateParts, end: i64, end_at: DateParts, end_open: bool },
    Event { info: ItemInfo, time: i64, time_at: DateParts },
    EventRange { info: ItemInfo, start: i64, start_at: DateParts, end: i64, end_at: DateParts, end_open: bool },
}

pub enum ItemView {
    Span { info: ItemInfoView, start: i64, start_at: DateParts, end: i64, end_at: DateParts, end_open: bool },
    Event { info: ItemInfoView, time: i64, time_at: DateParts },
    EventRange { info: ItemInfoView, start: i64, start_at: DateParts, end: i64, end_at: DateParts, end_open: bool },
}

impl ItemView {
    pub open spec fn info(self) -> ItemInfoView {
        match self {
            ItemView::Span { info, .. } => info,
            ItemView::Event { info, .. } => info,
            ItemView::EventRange { info, .. } => info,
        }
    }

    /// `(start, end)` years of a span or ranged event; `None` for a point event.
    pub open spec fn extent(self) -> Option<(i64, i64)> {
        match self {
            ItemView::Span { start, end, .. } => Some((start, end)),
            ItemView::EventRange { start, end, .. } => Some((start, end)),
            ItemView::Event { .. } => None,
        }
    }
}

impl View for Item {
    type V = ItemView;

    open spec fn view(&self) -> ItemView {
        match self {
            Item::Span { info, start, start_at, end, end_at, end_open } => ItemView::Span {
                info: info@, start: *start, start_at: *start_at, end: *end, end_at: *end_at, end_open: *end_open,
            },
            Item::Event { info, time, time_at } => ItemView::Event { info: info@, time: *time, time_at: *time_at },
            Item::EventRange { info, start, start_at, end, end_at, end_open } => ItemView::EventRange {
                info: info@, start: *start, start_at: *start_at, end: *end, end_at: *end_at, end_open: *end_open,
            },
        }
    }
}

impl Clone for Item {
    fn clone(&self) -> (r: Self)
        ensures
            r@ == self@,
    {
        match self {
            Item::Span { info, start, start_at, end, end_at, end_open } => Item::Span {
                info: info.clone(), start: *start, start_at: *start_at, end: *end, end_at: *end_at, end_open: *end_open,
            },
            Item::Event { info, time, time_at } => Item::Event { info: info.clone(), time: *time, time_at: *time_at },
            Item::EventRange { info, start, start_at, end, end_at, end_open } => Item::EventRange {
                info: info.clone(), start: *start, start_at: *start_at, end: *end, end_at: *end_at, end_open: *end_open,
            },
        }
    }
}

impl Item {
    /// The common fields of the item.
    pub fn info(&self) -> (r: &ItemInfo)
        ensures
            r@ == self@.info(),
    {
        match self {
            Item::Span { info, .. } => info,
            Item::Event { info, .. } => info,
            Item::EventRange { info, .. } => info,
        }
    }

    /// The lane the item belongs to.
    pub fn lane_id(&self) -> (r: &str)
        ensures
            r@ == self@.info().lane,
    {
        self.info().lane.as_str()
    }

    /// `(start, end)` of a span or ranged event; `None` for a point event.
    pub fn extent(&self) -> (r: Option<(i64, i64)>)
        ensures
            r == self@.extent(),
    {
        match self {
            Item::Span { start, end, .. } => Some((*start, *end)),
            Item::EventRange { start, end, .. } => Some((*start, *end)),
            Item::Event { .. } => None,
        }
    }

    /// Whether the item's end was given as "now" (ongoing); always `false` for events.
    pub fn end_open(&self) -> (r: bool)
        ensures
            r == match self@ {
                ItemView::Span { end_open, .. } => end_open,
                ItemView::EventRange { end_open, .. } => end_open,
                ItemView::Event { .. } => false,
            },
    {
        match self {
            Item::Span { end_open, .. } => *end_open,
            Item::EventRange { end_open, .. } => *end_open,
            Item::Event { .. } => false,
        }
    }
}

/// Timeline-wide metadata.
pub struct Meta {
    pub title: String,
    pub unit: String,
    pub range: (i64, i64),
    pub calendar: String,
    pub range_start_at: DateParts,
    pub range_end_at: DateParts,
}

pub struct MetaView {
    pub title: Seq<char>,
    pub unit: Seq<char>,
    pub range: (i64, i64),
    pub calendar: Seq<char>,
    pub range_start_at: DateParts,
    pub range_end_at: DateParts,
}

impl View for Meta {
    type V = MetaView;

    open spec fn view(&self) -> MetaView {
        MetaView {
            title: self.title@,
            unit: self.unit@,
            range: self.range,
            calendar: self.calendar@,
            range_start_at: self.range_start_at,
            range_end_at: self.range_end_at,
        }
    }
}

impl Clone for Meta {
    fn clone(&self) -> (r: Self)
        ensures
            r@ == self@,
    {
        Meta {
            title: self.title.clone(),
            unit: self.unit.clone(),
            range: self.range,
            calendar: self.calendar.clone(),
            range_start_at: self.range_start_at,
            range_end_at: self.range_end_at,
        }
    }
}

/// Record of one imported entity.
pub struct ImportRecord {
    pub source: String,
    pub qid: String,
    pub mapped_to: String,
}

/// Record of one data source and its license.
pub struct SourceRecord {
    pub id: String,
    pub provider: String,
    pub license: String,
}

impl View for ImportRecord {
    type V = (Seq<char>, Seq<char>, Seq<char>);

    open spec fn view(&self) -> (Seq<char>, Seq<char>, Seq<char>) {
        (self.source@, self.qid@, self.mapped_to@)
    }
}

impl View for SourceRecord {
    type V = (Seq<char>, Seq<char>, Seq<char>);

    open spec fn view(&self) -> (Seq<char>, Seq<char>, Seq<char>) {
        (self.id@, self.provider@, self.license@)
    }
}

impl Clone for ImportRecord {
    fn clone(&self) -> (r: Self)
        ensures
            r@ == self@,
    {
        ImportRecord { source: self.source.clone(), qid: self.qid.clone(), mapped_to: self.mapped_to.clone() }
    }
}

impl Clone for SourceRecord {
    fn clone(&self) -> (r: Self)
        ensures
            r@ == self@,
    {
        SourceRecord { id: self.id.clone(), provider: self.provider.clone(), license: self.license.clone() }
    }
}

/// The whole timeline.
pub struct TimelineIr {
    pub meta: Meta,
    pub lanes: Vec<Lane>,
    pub items: Vec<Item>,
    pub imports: Vec<ImportRecord>,
    pub sources: Vec<SourceRecord>,
}

pub struct TimelineIrView {
    pub meta: MetaView,
    pub lanes: Seq<LaneView>,
    pub items: Seq<ItemView>,
    pub imports: Seq<(Seq<char>, Seq<char>, Seq<char>)>,
    pub sources: Seq<(Seq<char>, Seq<char>, Seq<char>)>,
}

impl View for TimelineIr {
    type V = TimelineIrView;

    open spec fn view(&self) -> TimelineIrView {
        TimelineIrView {
            meta: self.meta@,
            lanes: lanes_view(self.lanes@),
            items: items_view(self.items@),
            imports: records_view(self.imports@),
            sources: sources_view(self.sources@),
        }
    }
}

/// Clones a list of lanes.
pub fn clone_lanes(v: &Vec<Lane>) -> (r: Vec<Lane>)
    ensures
        lanes_view(r@) == lanes_view(v@),
{
    let mut r: Vec<Lane> = Vec::new();
    let mut i: usize = 0;
    while i < v.len()
        invariant
            i <= v.len(),
            r.len() == i,
            forall|j: int| 0 <= j < i ==> #[trigger] r@[j]@ == v@[j]@,
        decreases v.len() - i,
    {
        let c = v[i].clone();
        r.push(c);
        i = i + 1;
    }
    assert(lanes_view(r@) =~= lanes_view(v@));
    r
}

/// Clones a list of items.
pub fn clone_items(v: &Vec<Item>) -> (r: Vec<Item>)
    ensures
        items_view(r@) == items_view(v@),
{
    let mut r: Vec<Item> = Vec::new();
    let mut i: usize = 0;
    while i < v.len()
        invariant
            i <= v.len(),
            r.len() == i,
            forall|j: int| 0 <= j < i ==> #[trigger] r@[j]@ == v@[j]@,
        decreases v.len() - i,
    {
        let c = v[i].clone();
        r.push(c);
        i = i + 1;
    }
    assert(items_view(r@) =~= items_view(v@));
    r
}

/// Clones a list of import records.
pub fn clone_imports(v: &Vec<ImportRecord>) -> (r: Vec<ImportRecord>)
    ensures
        records_view(r@) == records_view(v@),
{
    let mut r: Vec<ImportRecord> = Vec::new();
    let mut i: usize = 0;
    while i < v.len()
        invariant
            i <= v.len(),
            r.len() == i,
            forall|j: int| 0 <= j < i ==> #[trigger] r@[j]@ == v@[j]@,
        decreases v.len() - i,
    {
        let c = v[i].clone();
        r.push(c);
        i = i + 1;
    }
    assert(records_view(r@) =~= records_view(v@));
    r
}

/// Clones a list of source records.
pub fn clone_sources(v: &Vec<SourceRecord>) -> (r: Vec<SourceRecord>)
    ensures
        sources_view(r@) == sources_view(v@),
{
    let mut r: Vec<SourceRecord> = Vec::new();
    let mut i: usize = 0;
    while i < v.len()
        invariant
            i <= v.len(),
            r.len() == i,
            forall|j: int| 0 <= j < i ==> #[trigger] r@[j]@ == v@[j]@,
        decreases v.len() - i,
    {
        let c = v[i].clone();
        r.push(c);
        i = i + 1;
    }
    assert(sources_view(r@) =~= sources_view(v@));
    r
}

} // verus!
