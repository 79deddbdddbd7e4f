//! Data model shared by every stage of a sync run.
//!
//! Instants are Unix timestamps in whole seconds (UTC); task identifiers are the
//! 128-bit value of the TaskWarrior UUID.
use vstd::prelude::*;

verus! {

/// Seconds since the Unix epoch, UTC.
pub type Timestamp = i64;

/// A TaskWarrior annotation: creation instant and text.
#[derive(Debug, PartialEq)]
pub struct TwAnnotation {
    pub entry: Timestamp,
    pub description: String,
}

/// A TaskWarrior task, as exported by `task export`.
///
/// `urgency` holds the bit pattern of TaskWarrior's floating-point urgency; the
/// library never computes with it, it only carries it through.
#[derive(Debug)]
pub struct TWTask {
    pub uuid: u128,
    pub status: String,
    pub description: String,
    pub entry: Timestamp,
    pub modified: Option<Timestamp>,
    pub due: Option<Timestamp>,
    pub scheduled: Option<Timestamp>,
    pub wait: Option<Timestamp>,
    pub until: Option<Timestamp>,
    pub end: Option<Timestamp>,
    pub caldavuid: Option<String>,
    pub priority: Option<String>,
    pub project: Option<String>,
    pub tags: Option<Vec<String>>,
    pub recur: Option<String>,
    pub urgency: Option<u64>,
    pub id: Option<u64>,
    pub depends: Vec<u128>,
    pub annotations: Vec<TwAnnotation>,
}

/// Relationship type of a VTODO `RELATED-TO` property.
#[derive(Debug, PartialEq, Eq)]
pub enum RelType {
    DependsOn,
    Other(String),
}

/// An iCalendar property kept verbatim: name, parameters, value.
#[derive(Debug, PartialEq, Eq)]
pub struct IcalProp {
    pub name: String,
    pub params: Vec<(String, String)>,
    pub value: String,
}

/// A parsed CalDAV VTODO component.
#[derive(Debug)]
pub struct VTODO {
    pub uid: String,
    pub summary: Option<String>,
    pub description: Option<String>,
    /// NEEDS-ACTION | COMPLETED | CANCELLED | IN-PROCESS
    pub status: Option<String>,
    pub last_modified: Option<Timestamp>,
    pub dtstamp: Option<Timestamp>,
    pub dtstart: Option<Timestamp>,
    pub due: Option<Timestamp>,
    pub completed: Option<Timestamp>,
    pub categories: Vec<String>,
    pub rrule: Option<String>,
    pub priority: Option<u8>,
    pub depends: Vec<(RelType, String)>,
    pub extra_props: Vec<IcalProp>,
    pub due_is_date_only: bool,
    pub dtstart_is_date_only: bool,
}

/// A VTODO retrieved from the server, with its href and ETag.
#[derive(Debug)]
pub struct FetchedVTODO {
    pub href: String,
    pub etag: Option<String>,
    pub vtodo: VTODO,
}

/// One task of the intermediate representation, pairing the two sides.
#[derive(Debug)]
pub struct IREntry {
    pub tw_uuid: Option<u128>,
    pub caldav_uid: Option<String>,
    pub tw_task: Option<TWTask>,
    pub fetched_vtodo: Option<FetchedVTODO>,
    pub resolved_depends: Vec<String>,
    pub cyclic: bool,
    pub calendar_url: Option<String>,
    pub dirty_tw: bool,
    pub dirty_caldav: bool,
    /// Project resolved from the calendar, for entries that exist only on the CalDAV side.
    pub project: Option<String>,
}

/// The side whose data wins a conflict.
#[derive(Debug, PartialEq, Eq)]
pub enum Side {
    Tw,
    CalDav,
}

/// Why an update is written.
#[derive(Debug, PartialEq, Eq)]
pub enum UpdateReason {
    LwwTwWins,
    LwwCalDavWins,
    TwDeletedMarkCancelled,
    TwCompletedMarkCompleted,
    CalDavCompletedUpdateTw,
}

/// Why an entry is skipped.
#[derive(Debug, PartialEq, Eq)]
pub enum SkipReason {
    Cancelled,
    Completed,
    Recurring,
    Cyclic,
    Identical,
    DeletedBeforeSync,
    AlreadyDeleted,
    CalDavDeletedTwTerminal,
}

/// An operation the sync engine plans for one entry.
#[allow(inconsistent_fields)]
#[derive(Debug)]
pub enum PlannedOp {
    PushToCalDav(IREntry),
    PullFromCalDav(IREntry),
    DeleteFromCalDav(IREntry),
    DeleteFromTw(IREntry),
    ResolveConflict { entry: IREntry, winner: Side, reason: UpdateReason },
    Skip { tw_uuid: Option<u128>, reason: SkipReason },
}

/// A non-fatal diagnostic.
#[derive(Debug, PartialEq, Eq)]
pub struct Warning {
    pub tw_uuid: Option<u128>,
    pub message: String,
}

/// Summary of a sync run.
#[derive(Debug)]
pub struct SyncResult {
    pub planned_ops: Vec<PlannedOp>,
    pub warnings: Vec<Warning>,
    pub errors: Vec<String>,
    pub written_tw: usize,
    pub written_caldav: usize,
    pub skipped: usize,
}

/// A TaskWarrior task found to be cyclic.
#[derive(Debug)]
pub struct CyclicEntry {
    pub tw_task: TWTask,
    pub reason: String,
}

// ---------------------------------------------------------------------------
// Mathematical views
// ---------------------------------------------------------------------------

/// View of an optional string.
pub open spec fn opt_str(o: Option<String>) -> Option<Seq<char>> {
    match o {
        Some(s) => Some(s@),
        None => None,
    }
}

/// View of a vector of strings.
pub open spec fn str_seq(v: Seq<String>) -> Seq<Seq<char>> {
    v.map_values(|s: String| s@)
}

/// View of an optional vector of strings.
pub open spec fn opt_str_seq(o: Option<Vec<String>>) -> Option<Seq<Seq<char>>> {
    match o {
        Some(v) => Some(str_seq(v@)),
        None => None,
    }
}

pub struct TwAnnotationView {
    pub entry: int,
    pub description: Seq<char>,
}

impl View for TwAnnotation {
    type V = TwAnnotationView;

    open spec fn view(&self) -> TwAnnotationView {
        TwAnnotationView { entry: self.entry as int, description: self.description@ }
    }
}

pub open spec fn annotations_view(v: Seq<TwAnnotation>) -> Seq<TwAnnotationView> {
    v.map_values(|a: TwAnnotation| a@)
}

pub struct TWTaskView {
    pub uuid: u128,
    pub status: Seq<char>,
    pub description: Seq<char>,
    pub entry: Timestamp,
    pub modified: Option<Timestamp>,
    pub due: Option<Timestamp>,
    pub scheduled: Option<Timestamp>,
    pub wait: Option<Timestamp>,
    pub until: Option<Timestamp>,
    pub end: Option<Timestamp>,
    pub caldavuid: Option<Seq<char>>,
    pub priority: Option<Seq<char>>,
    pub project: Option<Seq<char>>,
    pub tags: Option<Seq<Seq<char>>>,
    pub recur: Option<Seq<char>>,
    pub urgency: Option<u64>,
    pub id: Option<u64>,
    pub depends: Seq<u128>,
    pub annotations: Seq<TwAnnotationView>,
}

impl View for TWTask {
    type V = TWTaskView;

    open spec fn view(&self) -> TWTaskView {
        TWTaskView {
            uuid: self.uuid,
            status: self.status@,
            description: self.description@,
            entry: self.entry,
            modified: self.modified,
            due: self.due,
            scheduled: self.scheduled,
            wait: self.wait,
            until: self.until,
            end: self.end,
            caldavuid: opt_str(self.caldavuid),
            priority: opt_str(self.priority),
            project: opt_str(self.project),
            tags: opt_str_seq(self.tags),
            recur: opt_str(self.recur),
            urgency: self.urgency,
            id: self.id,
            depends: self.depends@,
            annotations: annotations_view(self.annotations@),
        }
    }
}

pub enum RelTypeView {
    DependsOn,
    Other(Seq<char>),
}

impl View for RelType {
    type V = RelTypeView;

    open spec fn view(&self) -> RelTypeView {
        match self {
            RelType::DependsOn => RelTypeView::DependsOn,
            RelType::Other(s) => RelTypeView::Other(s@),
        }
    }
}

pub open spec fn params_view(v: Seq<(String, String)>) -> Seq<(Seq<char>, Seq<char>)> {
    v.map_values(|p: (String, String)| (p.0@, p.1@))
}

pub struct IcalPropView {
    pub name: Seq<char>,
    pub params: Seq<(Seq<char>, Seq<char>)>,
    pub value: Seq<char>,
}

impl View for IcalProp {
    type V = IcalPropView;

    open spec fn view(&self) -> IcalPropView {
        IcalPropView { name: self.name@, params: params_view(self.params@), value: self.value@ }
    }
}

pub open spec fn props_view(v: Seq<IcalProp>) -> Seq<IcalPropView> {
    v.map_values(|p: IcalProp| p@)
}

pub open spec fn depends_view(v: Seq<(RelType, String)>) -> Seq<(RelTypeView, Seq<char>)> {
    v.map_values(|d: (RelType, String)| (d.0@, d.1@))
}

pub struct VTODOView {
    pub uid: Seq<char>,
    pub summary: Option<Seq<char>>,
    pub description: Option<Seq<char>>,
    pub status: Option<Seq<char>>,
    pub last_modified: Option<Timestamp>,
    pub dtstamp: Option<Timestamp>,
    pub dtstart: Option<Timestamp>,
    pub due: Option<Timestamp>,
    pub completed: Option<Timestamp>,
    pub categories: Seq<Seq<char>>,
    pub rrule: Option<Seq<char>>,
    pub priority: Option<u8>,
    pub depends: Seq<(RelTypeView, Seq<char>)>,
    pub extra_props: Seq<IcalPropView>,
    pub due_is_date_only: bool,
    pub dtstart_is_date_only: bool,
}

impl View for VTODO {
    type V = VTODOView;

    open spec fn view(&self) -> VTODOView {
        VTODOView {
            uid: self.uid@,
            summary: opt_str(self.summary),
            description: opt_str(self.description),
            status: opt_str(self.status),
            last_modified: self.last_modified,
            dtstamp: self.dtstamp,
            dtstart: self.dtstart,
            due: self.due,
            completed: self.completed,
            categories: str_seq(self.categories@),
            rrule: opt_str(self.rrule),
            priority: self.priority,
            depends: depends_view(self.depends@),
            extra_props: props_view(self.extra_props@),
            due_is_date_only: self.due_is_date_only,
            dtstart_is_date_only: self.dtstart_is_date_only,
        }
    }
}

pub struct FetchedVTODOView {
    pub href: Seq<char>,
    pub etag: Option<Seq<char>>,
    pub vtodo: VTODOView,
}

impl View for FetchedVTODO {
    type V = FetchedVTODOView;

    open spec fn view(&self) -> FetchedVTODOView {
        FetchedVTODOView { href: self.href@, etag: opt_str(self.etag), vtodo: self.vtodo@ }
    }
}

pub struct IREntryView {
    pub tw_uuid: Option<u128>,
    pub caldav_uid: Option<Seq<char>>,
    pub tw_task: Option<TWTaskView>,
    pub fetched_vtodo: Option<FetchedVTODOView>,
    pub resolved_depends: Seq<Seq<char>>,
    pub cyclic: bool,
    pub calendar_url: Option<Seq<char>>,
    pub dirty_tw: bool,
    pub dirty_caldav: bool,
    pub project: Option<Seq<char>>,
}

pub open spec fn opt_task(o: Option<TWTask>) -> Option<TWTaskView> {
    match o {
        Some(t) => Some(t@),
        None => None,
    }
}

pub open spec fn opt_fetched(o: Option<FetchedVTODO>) -> Option<FetchedVTODOView> {
    match o {
        Some(f) => Some(f@),
        None => None,
    }
}

impl View for IREntry {
    type V = IREntryView;

    open spec fn view(&self) -> IREntryView {
        IREntryView {
            tw_uuid: self.tw_uuid,
            caldav_uid: opt_str(self.caldav_uid),
            tw_task: opt_task(self.tw_task),
            fetched_vtodo: opt_fetched(self.fetched_vtodo),
            resolved_depends: str_seq(self.resolved_depends@),
            cyclic: self.cyclic,
            calendar_url: opt_str(self.calendar_url),
            dirty_tw: self.dirty_tw,
            dirty_caldav: self.dirty_caldav,
            project: opt_str(self.project),
        }
    }
}

pub open spec fn tasks_view(v: Seq<TWTask>) -> Seq<TWTaskView> {
    v.map_values(|t: TWTask| t@)
}

pub open spec fn entries_view(v: Seq<IREntry>) -> Seq<IREntryView> {
    v.map_values(|e: IREntry| e@)
}

#[allow(inconsistent_fields)]
pub enum PlannedOpView {
    PushToCalDav(IREntryView),
    PullFromCalDav(IREntryView),
    DeleteFromCalDav(IREntryView),
    DeleteFromTw(IREntryView),
    ResolveConflict { entry: IREntryView, winner: Side, reason: UpdateReason },
    Skip { tw_uuid: Option<u128>, reason: SkipReason },
}

impl View for PlannedOp {
    type V = PlannedOpView;

    open spec fn view(&self) -> PlannedOpView {
        match self {
            PlannedOp::PushToCalDav(e) => PlannedOpView::PushToCalDav(e@),
            PlannedOp::PullFromCalDav(e) => PlannedOpView::PullFromCalDav(e@),
            PlannedOp::DeleteFromCalDav(e) => PlannedOpView::DeleteFromCalDav(e@),
            PlannedOp::DeleteFromTw(e) => PlannedOpView::DeleteFromTw(e@),
            PlannedOp::ResolveConflict { entry, winner, reason } => PlannedOpView::ResolveConflict {
                entry: entry@,
                winner: *winner,
                reason: *reason,
            },
            PlannedOp::Skip { tw_uuid, reason } => PlannedOpView::Skip { tw_uuid: *tw_uuid, reason: *reason },
        }
    }
}

pub open spec fn ops_view(v: Seq<PlannedOp>) -> Seq<PlannedOpView> {
    v.map_values(|o: PlannedOp| o@)
}

pub struct WarningView {
    pub tw_uuid: Option<u128>,
    pub message: Seq<char>,
}

impl View for Warning {
    type V = WarningView;

    open spec fn view(&self) -> WarningView {
        WarningView { tw_uuid: self.tw_uuid, message: self.message@ }
    }
}

pub open spec fn warnings_view(v: Seq<Warning>) -> Seq<WarningView> {
    v.map_values(|w: Warning| w@)
}

pub struct SyncResultView {
    pub planned_ops: Seq<PlannedOpView>,
    pub warnings: Seq<WarningView>,
    pub errors: Seq<Seq<char>>,
    pub written_tw: usize,
    pub written_caldav: usize,
    pub skipped: usize,
}

impl View for SyncResult {
    type V = SyncResultView;

    open spec fn view(&self) -> SyncResultView {
        SyncResultView {
            planned_ops: ops_view(self.planned_ops@),
            warnings: warnings_view(self.warnings@),
            errors: str_seq(self.errors@),
            written_tw: self.written_tw,
            written_caldav: self.written_caldav,
            skipped: self.skipped,
        }
    }
}

// ---------------------------------------------------------------------------
// Copies that Verus can see through
// ---------------------------------------------------------------------------

pub fn copy_opt_string(o: &Option<String>) -> (r: Option<String>)
    ensures
        opt_str(r) == opt_str(*o),
{
    match o {
        Some(s) => Some(s.clone()),
        None => None,
    }
}

pub fn copy_string_vec(v: &Vec<String>) -> (r: Vec<String>)
    ensures
        str_seq(r@) == str_seq(v@),
{
    let mut r: Vec<String> = Vec::new();
    let mut i: usize = 0;
    while i < v.len()
        invariant
            i <= v.len(),
            r.len() == i,
            forall|j: int| 0 <= j < i ==> r@[j]@ == v@[j]@,
        decreases v.len() - i,
    {
        r.push(v[i].clone());
        i += 1;
    }
    assert(str_seq(r@) =~= str_seq(v@));
    r
}

pub fn copy_opt_string_vec(o: &Option<Vec<String>>) -> (r: Option<Vec<String>>)
    ensures
        opt_str_seq(r) == opt_str_seq(*o),
{
    match o {
        Some(v) => Some(copy_string_vec(v)),
        None => None,
    }
}

impl Clone for TwAnnotation {
    fn clone(&self) -> (r: Self)
        ensures
            r == *self,
    {
        TwAnnotation { entry: self.entry, description: self.description.clone() }
    }
}

pub fn copy_annotations(v: &Vec<TwAnnotation>) -> (r: Vec<TwAnnotation>)
    ensures
        annotations_view(r@) == annotations_view(v@),
{
    let mut r: Vec<TwAnnotation> = Vec::new();
    let mut i: usize = 0;
    while i < v.len()
        invariant
            i <= v.len(),
            r.len() == i,
            forall|j: int| 0 <= j < i ==> r@[j]@ == v@[j]@,
        decreases v.len() - i,
    {
        r.push(v[i].clone());
        i += 1;
    }
    assert(annotations_view(r@) =~= annotations_view(v@));
    r
}

pub fn copy_u128_vec(v: &Vec<u128>) -> (r: Vec<u128>)
    ensures
        r@ == v@,
{
    let mut r: Vec<u128> = Vec::new();
    let mut i: usize = 0;
    while i < v.len()
        invariant
            i <= v.len(),
            r@ == v@.take(i as int),
        decreases v.len() - i,
    {
        r.push(v[i]);
        assert(v@.take(i as int).push(v@[i as int]) =~= v@.take(i + 1));
        i += 1;
    }
    assert(v@.take(v.len() as int) =~= v@);
    r
}

impl Clone for TWTask {
    fn clone(&self) -> (r: Self)
        ensures
            r@ == self@,
    {
        TWTask {
            uuid: self.uuid,
            status: self.status.clone(),
            description: self.description.clone(),
            entry: self.entry,
            modified: self.modified,
            due: self.due,
            scheduled: self.scheduled,
            wait: self.wait,
            until: self.until,
            end: self.end,
            caldavuid: copy_opt_string(&self.caldavuid),
            priority: copy_opt_string(&self.priority),
            project: copy_opt_string(&self.project),
            tags: copy_opt_string_vec(&self.tags),
            recur: copy_opt_string(&self.recur),
            urgency: self.urgency,
            id: self.id,
            depends: copy_u128_vec(&self.depends),
            annotations: copy_annotations(&self.annotations),
        }
    }
}

impl Clone for RelType {
    fn clone(&self) -> (r: Self)
        ensures
            r@ == self@,
    {
        match self {
            RelType::DependsOn => RelType::DependsOn,
            RelType::Other(s) => RelType::Other(s.clone()),
        }
    }
}

impl Clone for IcalProp {
    fn clone(&self) -> (r: Self)
        ensures
            r@ == self@,
    {
        let mut params: Vec<(String, String)> = Vec::new();
        let mut i: usize = 0;
        while i < self.params.len()
            invariant
                i <= self.params.len(),
                params.len() == i,
                forall|j: int| 0 <= j < i ==> params@[j].0@ == self.params@[j].0@ && params@[j].1@ == self.params@[j].1@,
            decreases self.params.len() - i,
        {
            let p = (self.params[i].0.clone(), self.params[i].1.clone());
            params.push(p);
            i += 1;
        }
        assert(params_view(params@) =~= params_view(self.params@));
        IcalProp { name: self.name.clone(), params, value: self.value.clone() }
    }
}

pub fn copy_props(v: &Vec<IcalProp>) -> (r: Vec<IcalProp>)
    ensures
        props_view(r@) == props_view(v@),
{
    let mut r: Vec<IcalProp> = Vec::new();
    let mut i: usize = 0;
    while i < v.len()
        invariant
            i <= v.len(),
            r.len() == i,
            forall|j: int| 0 <= j < i ==> r@[j]@ == v@[j]@,
        decreases v.len() - i,
    {
        r.push(v[i].clone());
        i += 1;
    }
    assert(props_view(r@) =~= props_view(v@));
    r
}

pub fn copy_depends(v: &Vec<(RelType, String)>) -> (r: Vec<(RelType, String)>)
    ensures
        depends_view(r@) == depends_view(v@),
{
    let mut r: Vec<(RelType, String)> = Vec::new();
    let mut i: usize = 0;
    while i < v.len()
        invariant
            i <= v.len(),
            r.len() == i,
            forall|j: int| 0 <= j < i ==> r@[j].0@ == v@[j].0@ && r@[j].1@ == v@[j].1@,
        decreases v.len() - i,
    {
        r.push((v[i].0.clone(), v[i].1.clone()));
        i += 1;
    }
    assert(depends_view(r@) =~= depends_view(v@));
    r
}

impl Clone for VTODO {
    fn clone(&self) -> (r: Self)
        ensures
            r@ == self@,
    {
        VTODO {
            uid: self.uid.clone(),
            summary: copy_opt_string(&self.summary),
            description: copy_opt_string(&self.description),
            status: copy_opt_string(&self.status),
            last_modified: self.last_modified,
            dtstamp: self.dtstamp,
            dtstart: self.dtstart,
            due: self.due,
            completed: self.completed,
            categories: copy_string_vec(&self.categories),
            rrule: copy_opt_string(&self.rrule),
            priority: self.priority,
            depends: copy_depends(&self.depends),
            extra_props: copy_props(&self.extra_props),
            due_is_date_only: self.due_is_date_only,
            dtstart_is_date_only: self.dtstart_is_date_only,
        }
    }
}

impl Clone for FetchedVTODO {
    fn clone(&self) -> (r: Self)
        ensures
            r@ == self@,
    {
        FetchedVTODO { href: self.href.clone(), etag: copy_opt_string(&self.etag), vtodo: self.vtodo.clone() }
    }
}

impl Clone for IREntry {
    fn clone(&self) -> (r: Self)
        ensures
            r@ == self@,
    {
        IREntry {
            tw_uuid: self.tw_uuid,
            caldav_uid: copy_opt_string(&self.caldav_uid),
            tw_task: match &self.tw_task {
                Some(t) => Some(t.clone()),
                None => None,
            },
            fetched_vtodo: match &self.fetched_vtodo {
                Some(f) => Some(f.clone()),
                None => None,
            },
            resolved_depends: copy_string_vec(&self.resolved_depends),
            cyclic: self.cyclic,
            calendar_url: copy_opt_string(&self.calendar_url),
            dirty_tw: self.dirty_tw,
            dirty_caldav: self.dirty_caldav,
            project: copy_opt_string(&self.project),
        }
    }
}

impl Clone for Side {
    fn clone(&self) -> (r: Self)
        ensures
            r == *self,
    {
        match self {
            Side::Tw => Side::Tw,
            Side::CalDav => Side::CalDav,
        }
    }
}

impl Clone for UpdateReason {
    fn clone(&self) -> (r: Self)
        ensures
            r == *self,
    {
        match self {
            UpdateReason::LwwTwWins => UpdateReason::LwwTwWins,
            UpdateReason::LwwCalDavWins => UpdateReason::LwwCalDavWins,
            UpdateReason::TwDeletedMarkCancelled => UpdateReason::TwDeletedMarkCancelled,
            UpdateReason::TwCompletedMarkCompleted => UpdateReason::TwCompletedMarkCompleted,
            UpdateReason::CalDavCompletedUpdateTw => UpdateReason::CalDavCompletedUpdateTw,
        }
    }
}

impl Clone for SkipReason {
    fn clone(&self) -> (r: Self)
        ensures
            r == *self,
    {
        match self {
            SkipReason::Cancelled => SkipReason::Cancelled,
            SkipReason::Completed => SkipReason::Completed,
            SkipReason::Recurring => SkipReason::Recurring,
            SkipReason::Cyclic => SkipReason::Cyclic,
            SkipReason::Identical => SkipReason::Identical,
            SkipReason::DeletedBeforeSync => SkipReason::DeletedBeforeSync,
            SkipReason::AlreadyDeleted => SkipReason::AlreadyDeleted,
            SkipReason::CalDavDeletedTwTerminal => SkipReason::CalDavDeletedTwTerminal,
        }
    }
}

impl Clone for PlannedOp {
    fn clone(&self) -> (r: Self)
        ensures
            r@ == self@,
    {
        match self {
            PlannedOp::PushToCalDav(e) => PlannedOp::PushToCalDav(e.clone()),
            PlannedOp::PullFromCalDav(e) => PlannedOp::PullFromCalDav(e.clone()),
            PlannedOp::DeleteFromCalDav(e) => PlannedOp::DeleteFromCalDav(e.clone()),
            PlannedOp::DeleteFromTw(e) => PlannedOp::DeleteFromTw(e.clone()),
            PlannedOp::ResolveConflict { entry, winner, reason } => PlannedOp::ResolveConflict {
                entry: entry.clone(),
                winner: winner.clone(),
                reason: reason.clone(),
            },
            PlannedOp::Skip { tw_uuid, reason } => PlannedOp::Skip { tw_uuid: *tw_uuid, reason: reason.clone() },
        }
    }
}

impl Clone for Warning {
    fn clone(&self) -> (r: Self)
        ensures
            r == *self,
    {
        Warning { tw_uuid: self.tw_uuid, message: self.message.clone() }
    }
}

impl Clone for CyclicEntry {
    fn clone(&self) -> (r: Self)
        ensures
            r.tw_task@ == self.tw_task@,
            r.reason@ == self.reason@,
    {
        CyclicEntry { tw_task: self.tw_task.clone(), reason: self.reason.clone() }
    }
}

} // verus!
