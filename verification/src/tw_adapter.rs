//! The TaskWarrior side: the writes the sync engine makes, and the decisions taken on what
//! `task` reports.
use vstd::prelude::*;
use crate::error::CaldaWarriorError;
use crate::text::{chars_of, has_substring, str_contains, string_of_range, trim, trim_str};
use crate::trusted::{naive_datetime_parse, parse_naive_datetime, parse_uuid, uuid_parse, uuid_text, uuid_to_string};
use crate::types::{TWTask, TWTaskView, Timestamp};
use vstd::string::StringExecFns;

verus! {

/// A write sent to TaskWarrior: a task created or updated (`task import`), or a task
/// deleted by UUID.
pub enum TwWrite {
    Create(TWTaskView),
    Update(TWTaskView),
    Delete(u128),
}

/// The writes the sync engine makes to TaskWarrior.
pub trait TwWriter {
    /// Creates a task that exists only on the CalDAV side so far (`task import`).
    fn create(&self, task: &TWTask) -> Result<(), CaldaWarriorError>;

    /// Replaces every field of an existing task (`task import`, an upsert by UUID).
    fn update(&self, task: &TWTask) -> Result<(), CaldaWarriorError>;

    /// Deletes a task by UUID.
    fn delete(&self, uuid: u128) -> Result<(), CaldaWarriorError>;
}

/// A TaskWarrior writer together with the writes sent through it so far, oldest first.
pub struct TwLog<'a, W: TwWriter> {
    writer: &'a W,
    sent: Ghost<Seq<TwWrite>>,
}

impl<'a, W: TwWriter> TwLog<'a, W> {
    /// The writes sent so far.
    pub closed spec fn writes(&self) -> Seq<TwWrite> {
        self.sent@
    }

    /// Starts logging the writes sent through a writer.
    pub fn new(writer: &'a W) -> (l: Self)
        ensures
            l.writes() == Seq::<TwWrite>::empty(),
    {
        TwLog { writer, sent: Ghost(Seq::empty()) }
    }

    /// Creates a task through the writer.
    pub fn create(&mut self, task: &TWTask) -> (r: Result<(), CaldaWarriorError>)
        ensures
            final(self).writes() == old(self).writes().push(TwWrite::Create(task@)),
    {
        let r = self.writer.create(task);
        self.sent = Ghost(self.sent@.push(TwWrite::Create(task@)));
        r
    }

    /// Updates a task through the writer.
    pub fn update(&mut self, task: &TWTask) -> (r: Result<(), CaldaWarriorError>)
        ensures
            final(self).writes() == old(self).writes().push(TwWrite::Update(task@)),
    {
        let r = self.writer.update(task);
        self.sent = Ghost(self.sent@.push(TwWrite::Update(task@)));
        r
    }

    /// Deletes a task through the writer.
    pub fn delete(&mut self, uuid: u128) -> (r: Result<(), CaldaWarriorError>)
        ensures
            final(self).writes() == old(self).writes().push(TwWrite::Delete(uuid)),
    {
        let r = self.writer.delete(uuid);
        self.sent = Ghost(self.sent@.push(TwWrite::Delete(uuid)));
        r
    }
}

/// The arguments of `task` that delete a task by UUID without asking for confirmation.
pub fn delete_args(uuid: u128) -> (r: Vec<String>)
    ensures
        crate::types::str_seq(r@) == seq!["rc.confirmation:no"@, uuid_text(uuid), "delete"@],
{
    let mut r: Vec<String> = Vec::new();
    r.push(String::from_str("rc.confirmation:no"));
    r.push(uuid_to_string(uuid));
    r.push(String::from_str("delete"));
    assert(crate::types::str_seq(r@) =~= seq!["rc.confirmation:no"@, uuid_text(uuid), "delete"@]);
    r
}

/// A call made on a TaskWarrior runner, as a test double records it.
#[derive(Debug)]
pub enum MockCall {
    Run(Vec<String>),
    Import(String),
}

/// `a > b` on optional instants, where an absent instant is older than any present one.
pub open spec fn newer(a: Option<i64>, b: Option<i64>) -> bool {
    match (a, b) {
        (Some(x), Some(y)) => x > y,
        (Some(_), None) => true,
        (None, _) => false,
    }
}

/// Position of the task with a UUID.
pub open spec fn uuid_pos(ts: Seq<TWTaskView>, u: u128) -> Option<int>
    decreases ts.len(),
{
    if ts.len() == 0 {
        None
    } else if ts.last().uuid == u {
        Some(ts.len() - 1)
    } else {
        uuid_pos(ts.drop_last(), u)
    }
}

/// The tasks of both exports, one per UUID: of two tasks with one UUID the one modified
/// later stays (an unmodified task counts as oldest, and the first read wins a tie), at
/// the place where that UUID first appeared.
pub open spec fn merged_exports(ts: Seq<TWTaskView>) -> Seq<TWTaskView>
    decreases ts.len(),
{
    if ts.len() == 0 {
        Seq::empty()
    } else {
        let prev = merged_exports(ts.drop_last());
        let t = ts.last();
        match uuid_pos(prev, t.uuid) {
            None => prev.push(t),
            Some(i) => if newer(t.modified, prev[i].modified) {
                prev.update(i, t)
            } else {
                prev
            },
        }
    }
}

proof fn lemma_uuid_pos(ts: Seq<TWTaskView>, u: u128)
    ensures
        uuid_pos(ts, u) matches Some(i) ==> 0 <= i < ts.len() && ts[i].uuid == u,
        uuid_pos(ts, u) is None ==> forall|j: int| 0 <= j < ts.len() ==> ts[j].uuid != u,
    decreases ts.len(),
{
    if ts.len() > 0 {
        lemma_uuid_pos(ts.drop_last(), u);
        assert forall|j: int| 0 <= j < ts.len() - 1 implies ts.drop_last()[j] == ts[j] by {}
    }
}

proof fn lemma_uuid_pos_unique(ts: Seq<TWTaskView>, i: int)
    requires
        0 <= i < ts.len(),
        forall|a: int, b: int| 0 <= a < b < ts.len() ==> ts[a].uuid != ts[b].uuid,
    ensures
        uuid_pos(ts, ts[i].uuid) == Some(i),
    decreases ts.len(),
{
    if i < ts.len() - 1 {
        assert(ts.drop_last()[i] == ts[i]);
        lemma_uuid_pos_unique(ts.drop_last(), i);
    }
}

fn find_uuid(r: &Vec<TWTask>, u: u128) -> (p: Option<usize>)
    requires
        forall|a: int, b: int| 0 <= a < b < r.len() ==> r@[a].uuid != r@[b].uuid,
    ensures
        match p {
            Some(i) => uuid_pos(crate::types::tasks_view(r@), u) == Some(i as int) && i < r.len(),
            None => uuid_pos(crate::types::tasks_view(r@), u) is None,
        },
{
    let ghost rv = crate::types::tasks_view(r@);
    let mut i: usize = 0;
    while i < r.len()
        invariant
            i <= r.len(),
            rv == crate::types::tasks_view(r@),
            forall|a: int, b: int| 0 <= a < b < r.len() ==> r@[a].uuid != r@[b].uuid,
            forall|j: int| 0 <= j < i ==> r@[j].uuid != u,
        decreases r.len() - i,
    {
        if r[i].uuid == u {
            proof {
                assert forall|a: int, b: int| 0 <= a < b < rv.len() implies rv[a].uuid != rv[b].uuid by {
                    assert(rv[a].uuid == r@[a].uuid);
                    assert(rv[b].uuid == r@[b].uuid);
                }
                lemma_uuid_pos_unique(rv, i as int);
            }
            return Some(i);
        }
        i += 1;
    }
    proof {
        lemma_uuid_pos(rv, u);
        if uuid_pos(rv, u) is Some {
            let k = uuid_pos(rv, u)->0;
            assert(rv[k].uuid == r@[k].uuid);
        }
    }
    None
}

/// Merges the pending and the completed exports by UUID (`TwAdapter::list_all`'s dedup).
pub fn merge_exports(all: &Vec<TWTask>) -> (r: Vec<TWTask>)
    ensures
        crate::types::tasks_view(r@) == merged_exports(crate::types::tasks_view(all@)),
        forall|a: int, b: int| 0 <= a < b < r.len() ==> r@[a].uuid != r@[b].uuid,
{
    let ghost av = crate::types::tasks_view(all@);
    let mut r: Vec<TWTask> = Vec::new();
    let mut i: usize = 0;
    assert(av.take(0) =~= Seq::<TWTaskView>::empty());
    assert(crate::types::tasks_view(r@) =~= Seq::<TWTaskView>::empty());
    while i < all.len()
        invariant
            i <= all.len(),
            av == crate::types::tasks_view(all@),
            crate::types::tasks_view(r@) == merged_exports(av.take(i as int)),
            forall|a: int, b: int| 0 <= a < b < r.len() ==> r@[a].uuid != r@[b].uuid,
        decreases all.len() - i,
    {
        let t = all[i].clone();
        let ghost prev = crate::types::tasks_view(r@);
        assert(av.take(i + 1).drop_last() =~= av.take(i as int));
        assert(av.take(i + 1).last() == all@[i as int]@);
        match find_uuid(&r, t.uuid) {
            None => {
                proof {
                    lemma_uuid_pos(prev, t.uuid);
                    assert forall|j: int| 0 <= j < r.len() implies r@[j].uuid != t.uuid by {
                        assert(prev[j].uuid == r@[j].uuid);
                    }
                }
                r.push(t);
                assert(crate::types::tasks_view(r@) =~= prev.push(all@[i as int]@));
            },
            Some(k) => {
                let later = match (t.modified, r[k].modified) {
                    (Some(x), Some(y)) => x > y,
                    (Some(_), None) => true,
                    (None, _) => false,
                };
                proof {
                    lemma_uuid_pos(prev, t.uuid);
                    assert(prev[k as int].modified == r@[k as int].modified);
                }
                if later {
                    r.set(k, t);
                    assert(crate::types::tasks_view(r@) =~= prev.update(k as int, all@[i as int]@));
                    assert forall|a: int, b: int| 0 <= a < b < r.len() implies r@[a].uuid != r@[b].uuid by {
                        assert(prev[k as int].uuid == all@[i as int].uuid);
                        assert(prev[a].uuid == r@[a].uuid || a == k);
                        assert(prev[b].uuid == r@[b].uuid || b == k);
                    }
                }
            },
        }
        i += 1;
    }
    assert(av.take(all.len() as int) =~= av);
    r
}

/// What `task delete` reporting a result means: a task that is already gone (exit code 1
/// with "not deletable" or "Deleted 0" on stderr) counts as deleted.
pub open spec fn delete_outcome_spec(r: Result<Seq<char>, CaldaWarriorError>) -> Result<(), CaldaWarriorError> {
    match r {
        Ok(_) => Ok(()),
        Err(e) => match e {
            CaldaWarriorError::Tw { code, stderr } => if code == 1 && (has_substring(stderr@, "not deletable"@)
                || has_substring(stderr@, "Deleted 0"@)) {
                Ok(())
            } else {
                Err(e)
            },
            _ => Err(e),
        },
    }
}

/// The result of a task deletion, from what `task ... delete` returned.
pub fn delete_outcome(r: Result<String, CaldaWarriorError>) -> (o: Result<(), CaldaWarriorError>)
    ensures
        o == delete_outcome_spec(match r {
            Ok(s) => Ok(s@),
            Err(e) => Err(e),
        }),
{
    match r {
        Ok(_) => Ok(()),
        Err(e) => {
            let gone = match &e {
                CaldaWarriorError::Tw { code, stderr } => *code == 1 && (str_contains(stderr.as_str(), "not deletable")
                    || str_contains(stderr.as_str(), "Deleted 0")),
                _ => false,
            };
            if gone {
                Ok(())
            } else {
                Err(e)
            }
        },
    }
}

// ---------------------------------------------------------------------------
// TaskWarrior's JSON field formats
// ---------------------------------------------------------------------------

/// The pieces of a text between the separator `c` (all of them, empty ones included).
pub open spec fn split_on(s: Seq<char>, c: char, cur: Seq<char>) -> Seq<Seq<char>>
    decreases s.len(),
{
    if s.len() == 0 {
        seq![cur]
    } else if s[0] == c {
        seq![cur] + split_on(s.drop_first(), c, Seq::empty())
    } else {
        split_on(s.drop_first(), c, cur.push(s[0]))
    }
}

/// Each piece trimmed and read as a UUID; nothing when one of them is not a UUID.
pub open spec fn parse_uuid_list(parts: Seq<Seq<char>>) -> Option<Seq<u128>>
    decreases parts.len(),
{
    if parts.len() == 0 {
        Some(Seq::empty())
    } else {
        match (parse_uuid_list(parts.drop_last()), uuid_parse(trim(parts.last()))) {
            (Some(prev), Some(u)) => Some(prev.push(u)),
            _ => None,
        }
    }
}

/// A task's `depends` as TaskWarrior exports it in one string: empty, or UUIDs separated
/// by commas.
pub open spec fn depends_of_text(s: Seq<char>) -> Option<Seq<u128>> {
    if s.len() == 0 {
        Some(Seq::empty())
    } else {
        parse_uuid_list(split_on(s, ',', Seq::empty()))
    }
}

fn parse_parts(parts: &Vec<String>) -> (r: Option<Vec<u128>>)
    ensures
        match r {
            Some(v) => parse_uuid_list(crate::types::str_seq(parts@)) == Some(v@),
            None => parse_uuid_list(crate::types::str_seq(parts@)) is None,
        },
{
    let ghost ps = crate::types::str_seq(parts@);
    let mut out: Vec<u128> = Vec::new();
    let mut i: usize = 0;
    assert(ps.take(0) =~= Seq::<Seq<char>>::empty());
    while i < parts.len()
        invariant
            i <= parts.len(),
            ps == crate::types::str_seq(parts@),
            parse_uuid_list(ps.take(i as int)) == Some(out@),
        decreases parts.len() - i,
    {
        assert(ps.take(i + 1).drop_last() =~= ps.take(i as int));
        assert(ps.take(i + 1).last() == parts@[i as int]@);
        let t = trim_str(parts[i].as_str());
        match parse_uuid(t.as_str()) {
            Some(u) => out.push(u),
            None => {
                proof {
                    lemma_parse_list_none(ps, i as int + 1);
                }
                return None;
            },
        }
        i += 1;
    }
    assert(ps.take(parts.len() as int) =~= ps);
    Some(out)
}

proof fn lemma_parse_list_none(ps: Seq<Seq<char>>, k: int)
    requires
        0 <= k <= ps.len(),
        parse_uuid_list(ps.take(k)) is None,
    ensures
        parse_uuid_list(ps) is None,
    decreases ps.len() - k,
{
    if k < ps.len() {
        assert(ps.take(k + 1).drop_last() =~= ps.take(k));
        lemma_parse_list_none(ps, k + 1);
    } else {
        assert(ps.take(k) =~= ps);
    }
}

/// `depends` given as one string: the UUIDs between commas, each trimmed.
pub fn depends_from_text(s: &str) -> (r: Option<Vec<u128>>)
    ensures
        match r {
            Some(v) => depends_of_text(s@) == Some(v@),
            None => depends_of_text(s@) is None,
        },
{
    let v = chars_of(s);
    if v.len() == 0 {
        let e: Vec<u128> = Vec::new();
        assert(e@ =~= Seq::<u128>::empty());
        return Some(e);
    }
    let mut parts: Vec<String> = Vec::new();
    let mut start: usize = 0;
    let mut i: usize = 0;
    assert(v@.skip(0) =~= v@);
    assert(v@.subrange(0, 0) =~= Seq::<char>::empty());
    assert(crate::types::str_seq(parts@) =~= Seq::<Seq<char>>::empty());
    while i < v.len()
        invariant
            start <= i <= v.len(),
            v@ == s@,
            split_on(v@, ',', Seq::empty()) == crate::types::str_seq(parts@) + split_on(
                v@.skip(i as int),
                ',',
                v@.subrange(start as int, i as int),
            ),
        decreases v.len() - i,
    {
        assert(v@.skip(i as int).drop_first() =~= v@.skip(i + 1));
        let ghost cur = v@.subrange(start as int, i as int);
        if v[i] == ',' {
            let piece = string_of_range(&v, start, i);
            let ghost prev = crate::types::str_seq(parts@);
            parts.push(piece);
            assert(crate::types::str_seq(parts@) =~= prev.push(cur));
            assert(v@.subrange(i + 1, i + 1) =~= Seq::<char>::empty());
            assert(prev + (seq![cur] + split_on(v@.skip(i + 1), ',', Seq::empty())) =~= prev.push(cur) + split_on(
                v@.skip(i + 1),
                ',',
                Seq::empty(),
            ));
            start = i + 1;
        } else {
            assert(cur.push(v@[i as int]) =~= v@.subrange(start as int, i + 1));
        }
        i += 1;
    }
    let piece = string_of_range(&v, start, v.len());
    let ghost prev = crate::types::str_seq(parts@);
    parts.push(piece);
    assert(v@.skip(v.len() as int) =~= Seq::<char>::empty());
    assert(crate::types::str_seq(parts@) =~= prev + seq![v@.subrange(start as int, v.len() as int)]);
    parse_parts(&parts)
}

/// `depends` given as a list of strings: each trimmed and read as a UUID.
pub fn depends_from_list(parts: &Vec<String>) -> (r: Option<Vec<u128>>)
    ensures
        match r {
            Some(v) => parse_uuid_list(crate::types::str_seq(parts@)) == Some(v@),
            None => parse_uuid_list(crate::types::str_seq(parts@)) is None,
        },
{
    parse_parts(parts)
}

/// The UUIDs joined by commas, as TaskWarrior's `depends` string.
pub open spec fn depends_text(us: Seq<u128>) -> Seq<char>
    decreases us.len(),
{
    if us.len() == 0 {
        Seq::empty()
    } else if us.len() == 1 {
        uuid_text(us[0])
    } else {
        depends_text(us.drop_last()) + seq![','] + uuid_text(us.last())
    }
}

/// A UUID whose text reads back: hyphenated characters that `parse_str` reads as the UUID.
pub open spec fn uuid_reads_back(u: u128) -> bool {
    crate::trusted::hyphenated_chars(uuid_text(u)) && uuid_parse(uuid_text(u)) == Some(u)
}

proof fn lemma_depends_text_front(us: Seq<u128>)
    requires
        us.len() > 1,
    ensures
        depends_text(us) == uuid_text(us[0]) + seq![','] + depends_text(us.drop_first()),
    decreases us.len(),
{
    let init = us.drop_last();
    if init.len() == 1 {
        assert(us.drop_first() =~= seq![us.last()]);
        assert(depends_text(init) == uuid_text(init[0]));
        assert(depends_text(us.drop_first()) == uuid_text(us.last()));
    } else {
        lemma_depends_text_front(init);
        assert(init[0] == us[0]);
        assert(us.drop_first().drop_last() =~= init.drop_first());
        assert(us.drop_first().last() == us.last());
        assert(us.drop_first().len() > 1);
        assert(depends_text(us) =~= uuid_text(us[0]) + seq![','] + depends_text(us.drop_first()));
    }
}

proof fn lemma_split_no_sep(t: Seq<char>, rest: Seq<char>, cur: Seq<char>)
    requires
        forall|i: int| 0 <= i < t.len() ==> #[trigger] t[i] != ',',
    ensures
        split_on(t + rest, ',', cur) == split_on(rest, ',', cur + t),
    decreases t.len(),
{
    if t.len() == 0 {
        assert(t + rest =~= rest);
        assert(cur + t =~= cur);
    } else {
        assert((t + rest)[0] == t[0]);
        assert((t + rest).drop_first() =~= t.drop_first() + rest);
        lemma_split_no_sep(t.drop_first(), rest, cur.push(t[0]));
        assert(cur.push(t[0]) + t.drop_first() =~= cur + t);
    }
}

proof fn lemma_split_depends(us: Seq<u128>)
    requires
        us.len() > 0,
        forall|i: int| 0 <= i < us.len() ==> uuid_reads_back(#[trigger] us[i]),
    ensures
        split_on(depends_text(us), ',', Seq::empty()) == us.map_values(|u: u128| uuid_text(u)),
    decreases us.len(),
{
    let t = uuid_text(us[0]);
    assert(uuid_reads_back(us[0]));
    assert forall|i: int| 0 <= i < t.len() implies #[trigger] t[i] != ',' by {
        assert(('0' <= t[i] <= '9') || ('a' <= t[i] <= 'f') || t[i] == '-');
    }
    if us.len() == 1 {
        assert(depends_text(us) == t);
        lemma_split_no_sep(t, Seq::empty(), Seq::empty());
        assert(t + Seq::<char>::empty() =~= t);
        assert(Seq::<char>::empty() + t =~= t);
        assert(us.map_values(|u: u128| uuid_text(u)) =~= seq![t]);
    } else {
        let rest = us.drop_first();
        lemma_depends_text_front(us);
        let r = seq![','] + depends_text(rest);
        assert(depends_text(us) =~= t + r);
        lemma_split_no_sep(t, r, Seq::empty());
        assert(Seq::<char>::empty() + t =~= t);
        assert(r[0] == ',');
        assert(r.drop_first() =~= depends_text(rest));
        assert forall|i: int| 0 <= i < rest.len() implies uuid_reads_back(#[trigger] rest[i]) by {
            assert(rest[i] == us[i + 1]);
        }
        lemma_split_depends(rest);
        assert(us.map_values(|u: u128| uuid_text(u)) =~= seq![t] + rest.map_values(|u: u128| uuid_text(u)));
    }
}

proof fn lemma_parse_texts(us: Seq<u128>)
    requires
        forall|i: int| 0 <= i < us.len() ==> uuid_reads_back(#[trigger] us[i]),
    ensures
        parse_uuid_list(us.map_values(|u: u128| uuid_text(u))) == Some(us),
    decreases us.len(),
{
    if us.len() > 0 {
        let init = us.drop_last();
        assert forall|i: int| 0 <= i < init.len() implies uuid_reads_back(#[trigger] init[i]) by {
            assert(init[i] == us[i]);
        }
        lemma_parse_texts(init);
        assert(us.map_values(|u: u128| uuid_text(u)).drop_last() =~= init.map_values(|u: u128| uuid_text(u)));
        let t = uuid_text(us.last());
        assert(uuid_reads_back(us[us.len() - 1]));
        assert(('0' <= t[0] <= '9') || ('a' <= t[0] <= 'f') || t[0] == '-');
        assert(('0' <= t[t.len() - 1] <= '9') || ('a' <= t[t.len() - 1] <= 'f') || t[t.len() - 1] == '-');
        crate::text::lemma_trim_id(t);
        assert(init.push(us.last()) =~= us);
    } else {
        assert(us.map_values(|u: u128| uuid_text(u)) =~= Seq::<Seq<char>>::empty());
        assert(us =~= Seq::<u128>::empty());
    }
}

/// `depends` written as TaskWarrior's comma-separated string, which `depends_from_text`
/// reads back as the same UUIDs.
pub fn depends_to_text(us: &Vec<u128>) -> (s: String)
    ensures
        s@ == depends_text(us@),
        depends_of_text(s@) == Some(us@),
{
    let mut s = String::new();
    let mut i: usize = 0;
    assert(us@.take(0) =~= Seq::<u128>::empty());
    while i < us.len()
        invariant
            i <= us.len(),
            s@ == depends_text(us@.take(i as int)),
            forall|j: int| 0 <= j < i ==> uuid_reads_back(#[trigger] us@[j]),
        decreases us.len() - i,
    {
        assert(us@.take(i + 1).drop_last() =~= us@.take(i as int));
        if i > 0 {
            crate::text::push_char(&mut s, ',');
        }
        let t = uuid_to_string(us[i]);
        s.append(t.as_str());
        proof {
            crate::trusted::lemma_uuid_text_chars(us@[i as int]);
            if i == 0 {
                assert(s@ =~= uuid_text(us@[0]));
            }
        }
        i += 1;
    }
    assert(us@.take(us.len() as int) =~= us@);
    proof {
        if us.len() > 0 {
            lemma_split_depends(us@);
            lemma_parse_texts(us@);
            assert(depends_text(us@).len() > 0) by {
                lemma_depends_text_len(us@);
            }
        } else {
            assert(depends_text(us@) =~= Seq::<char>::empty());
            assert(us@ =~= Seq::<u128>::empty());
        }
    }
    s
}

proof fn lemma_depends_text_len(us: Seq<u128>)
    requires
        us.len() > 0,
        uuid_reads_back(us.last()),
    ensures
        depends_text(us).len() > 0,
{
    assert(uuid_text(us.last()).len() == 36);
    if us.len() > 1 {
        assert(depends_text(us) == depends_text(us.drop_last()) + seq![','] + uuid_text(us.last()));
    }
}

/// TaskWarrior's compact date form `YYYYMMDDTHHMMSSZ`.
pub open spec fn tw_date_format() -> Seq<char> {
    "%Y%m%dT%H%M%SZ"@
}

/// A date as TaskWarrior writes it in JSON; `tw_date_from_text` reads it back for every
/// instant in the years 1 to 9999.
pub fn tw_date_text(t: Timestamp) -> (s: String)
    ensures
        s@ == crate::trusted::utc_format(t, crate::trusted::ical_utc_format()),
        crate::trusted::four_digit_year(t) ==> naive_datetime_parse(s@, tw_date_format()) == Some(t),
{
    proof {
        reveal_strlit("%Y%m%dT%H%M%SZ");
    }
    crate::ical::value::format_datetime(t)
}

/// A date read from TaskWarrior's JSON.
pub fn tw_date_from_text(s: &str) -> (r: Option<Timestamp>)
    ensures
        r == naive_datetime_parse(s@, tw_date_format()),
{
    proof {
        reveal_strlit("%Y%m%dT%H%M%SZ");
    }
    parse_naive_datetime(s, "%Y%m%dT%H%M%SZ")
}

} // verus!
