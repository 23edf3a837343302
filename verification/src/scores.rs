//! Persistent high scores: a map from app version to mode name to a bounded
//! list of scores, sorted highest first and truncated to ten entries.

use vstd::prelude::*;

verus! {

/// Most entries one `(version, mode)` bucket keeps.
pub const SCORE_MAX_ENTRY_PER_SAME_COND: usize = 10;

/// One recorded score.
#[derive(Clone, Copy, Debug, PartialEq, Eq, Structural)]
pub struct Score {
    pub score: u32,
}

impl Score {
    /// A score record.
    pub fn new(score: u32) -> (r: Score)
        ensures
            r.score == score,
    {
        Score { score }
    }
}

/// The bucket a session's score is recorded under: the mode played and the
/// application version.
pub struct GameCond {
    pub mode: String,
    pub app_ver: String,
}

impl GameCond {
    /// A bucket key.
    pub fn new(mode: &str, app_ver: &str) -> (r: GameCond)
        ensures
            r.mode@ == mode@,
            r.app_ver@ == app_ver@,
    {
        GameCond { mode: mode.to_owned(), app_ver: app_ver.to_owned() }
    }
}

/// The scores of one mode.
pub struct ModeScores {
    pub mode: String,
    pub scores: Vec<Score>,
}

/// The modes of one application version.
pub struct VersionScores {
    pub app_ver: String,
    pub modes: Vec<ModeScores>,
}

/// `list` is sorted highest first.
pub open spec fn sorted_desc(list: Seq<Score>) -> bool {
    forall|i: int, j: int| 0 <= i < j < list.len() ==> list[i].score >= list[j].score
}

/// Some version entry carries `ver`.
pub open spec fn spec_has_ver(s: Seq<VersionScores>, ver: Seq<char>) -> bool {
    exists|i: int| 0 <= i < s.len() && s[i].app_ver@ == ver
}

/// Index of the version entry carrying `ver`.
pub open spec fn spec_ver_idx(s: Seq<VersionScores>, ver: Seq<char>) -> int {
    choose|i: int| 0 <= i < s.len() && s[i].app_ver@ == ver
}

/// Some mode entry carries `mode`.
pub open spec fn spec_has_mode(s: Seq<ModeScores>, mode: Seq<char>) -> bool {
    exists|i: int| 0 <= i < s.len() && s[i].mode@ == mode
}

/// Index of the mode entry carrying `mode`.
pub open spec fn spec_mode_idx(s: Seq<ModeScores>, mode: Seq<char>) -> int {
    choose|i: int| 0 <= i < s.len() && s[i].mode@ == mode
}

/// Where a new score lands in a descending list: after every entry at least
/// as high.
pub open spec fn spec_insert_pos(list: Seq<Score>, sc: Score) -> int
    decreases list.len(),
{
    if list.len() == 0 {
        0
    } else if list[0].score >= sc.score {
        1 + spec_insert_pos(list.drop_first(), sc)
    } else {
        0
    }
}

/// A descending list with a new score pushed in: inserted after its equals,
/// then truncated to the bucket bound.
pub open spec fn spec_pushed_scores(list: Seq<Score>, sc: Score) -> Seq<Score> {
    let ins = list.insert(spec_insert_pos(list, sc), sc);
    if ins.len() <= SCORE_MAX_ENTRY_PER_SAME_COND {
        ins
    } else {
        ins.take(SCORE_MAX_ENTRY_PER_SAME_COND as int)
    }
}

/// The scan position with all higher-or-equal entries before it and a lower
/// one (or the end) at it is the insert position.
proof fn lemma_insert_pos(list: Seq<Score>, sc: Score, p: int)
    requires
        0 <= p <= list.len(),
        forall|k: int| 0 <= k < p ==> (#[trigger] list[k]).score >= sc.score,
        p < list.len() ==> list[p].score < sc.score,
    ensures
        spec_insert_pos(list, sc) == p,
    decreases list.len(),
{
    if p == 0 {
    } else {
        assert(list[0].score >= sc.score);
        assert forall|k: int| 0 <= k < p - 1 implies
            (#[trigger] list.drop_first()[k]).score >= sc.score by {
            assert(list.drop_first()[k] == list[k + 1]);
        };
        assert(p - 1 < list.drop_first().len() ==> list.drop_first()[p - 1].score < sc.score);
        lemma_insert_pos(list.drop_first(), sc, p - 1);
    }
}

/// What recording one score does to the whole table: the bucket under
/// `(ver, mode)` gains `sc` behind its equals and is truncated to its
/// bound; missing version or mode entries are created; nothing else moves.
pub open spec fn spec_recorded(
    olds: Seq<VersionScores>,
    news: Seq<VersionScores>,
    ver: Seq<char>,
    mode: Seq<char>,
    sc: Score,
) -> bool {
    if spec_has_ver(olds, ver) {
        let vi = spec_ver_idx(olds, ver);
        let oldmodes = olds[vi].modes@;
        &&& news.len() == olds.len()
        &&& forall|i: int| 0 <= i < olds.len() && i != vi ==> news[i] == olds[i]
        &&& news[vi].app_ver@ == ver
        &&& if spec_has_mode(oldmodes, mode) {
            let mi = spec_mode_idx(oldmodes, mode);
            &&& news[vi].modes@.len() == oldmodes.len()
            &&& forall|a: int| 0 <= a < oldmodes.len() && a != mi
                ==> news[vi].modes@[a] == oldmodes[a]
            &&& news[vi].modes@[mi].mode@ == mode
            &&& news[vi].modes@[mi].scores@ == spec_pushed_scores(oldmodes[mi].scores@, sc)
        } else {
            &&& news[vi].modes@.len() == oldmodes.len() + 1
            &&& forall|a: int| 0 <= a < oldmodes.len() ==> news[vi].modes@[a] == oldmodes[a]
            &&& news[vi].modes@.last().mode@ == mode
            &&& news[vi].modes@.last().scores@ == seq![sc]
        }
    } else {
        &&& news.len() == olds.len() + 1
        &&& forall|i: int| 0 <= i < olds.len() ==> news[i] == olds[i]
        &&& news.last().app_ver@ == ver
        &&& news.last().modes@.len() == 1
        &&& news.last().modes@[0].mode@ == mode
        &&& news.last().modes@[0].scores@ == seq![sc]
    }
}

/// All persisted scores.
pub struct Scores {
    /// One entry per application version seen.
    pub scores: Vec<VersionScores>,
}

impl Scores {
    /// Version keys unique, mode keys unique per version, every bucket
    /// sorted highest first and within the bound.
    pub open spec fn wf(&self) -> bool {
        &&& forall|i: int, j: int| 0 <= i < j < self.scores@.len()
            ==> self.scores@[i].app_ver@ != self.scores@[j].app_ver@
        &&& forall|i: int| 0 <= i < self.scores@.len() ==> {
            let ms = (#[trigger] self.scores@[i]).modes@;
            &&& forall|a: int, b: int| 0 <= a < b < ms.len()
                ==> (#[trigger] ms[a]).mode@ != (#[trigger] ms[b]).mode@
            &&& forall|a: int| 0 <= a < ms.len() ==> {
                &&& sorted_desc((#[trigger] ms[a]).scores@)
                &&& ms[a].scores@.len() <= SCORE_MAX_ENTRY_PER_SAME_COND
            }
        }
    }

    /// No scores recorded yet.
    pub fn new() -> (r: Scores)
        ensures
            r.scores@.len() == 0,
            r.wf(),
    {
        Scores { scores: Vec::new() }
    }

    /// The bucket under `key`, if one exists.
    pub fn get(&self, key: &GameCond) -> (r: Option<&Vec<Score>>)
        requires
            self.wf(),
        ensures
            match r {
                Some(v) => spec_has_ver(self.scores@, key.app_ver@) && ({
                    let ver = self.scores@[spec_ver_idx(self.scores@, key.app_ver@)];
                    &&& spec_has_mode(ver.modes@, key.mode@)
                    &&& v@ == ver.modes@[spec_mode_idx(ver.modes@, key.mode@)].scores@
                }),
                None => !spec_has_ver(self.scores@, key.app_ver@)
                    || !spec_has_mode(
                        self.scores@[spec_ver_idx(self.scores@, key.app_ver@)].modes@,
                        key.mode@,
                    ),
            },
    {
        match self.find_ver(&key.app_ver) {
            Some(vi) => {
                let ver = &self.scores[vi];
                proof {
                    lemma_ver_idx(self.scores@, vi as int, key.app_ver@);
                }
                match find_mode(&ver.modes, &key.mode) {
                    Some(mi) => {
                        proof {
                            lemma_mode_idx(ver.modes@, mi as int, key.mode@);
                        }
                        Some(&ver.modes[mi].scores)
                    },
                    None => None,
                }
            },
            None => None,
        }
    }

    /// The highest score under `key`, if any: the head of the bucket, which
    /// is sorted highest first.
    pub fn get_highest(&self, key: &GameCond) -> (r: Option<&Score>)
        requires
            self.wf(),
        ensures
            match r {
                Some(sc) => spec_has_ver(self.scores@, key.app_ver@) && ({
                    let ver = self.scores@[spec_ver_idx(self.scores@, key.app_ver@)];
                    let bucket = ver.modes@[spec_mode_idx(ver.modes@, key.mode@)].scores@;
                    &&& spec_has_mode(ver.modes@, key.mode@)
                    &&& bucket.len() > 0
                    &&& *sc == bucket[0]
                    &&& forall|k: int| 0 <= k < bucket.len()
                        ==> (#[trigger] bucket[k]).score <= sc.score
                }),
                None => !spec_has_ver(self.scores@, key.app_ver@)
                    || !spec_has_mode(
                        self.scores@[spec_ver_idx(self.scores@, key.app_ver@)].modes@,
                        key.mode@,
                    )
                    || self.scores@[spec_ver_idx(self.scores@, key.app_ver@)]
                        .modes@[spec_mode_idx(
                        self.scores@[spec_ver_idx(self.scores@, key.app_ver@)].modes@,
                        key.mode@,
                    )].scores@.len() == 0,
            },
    {
        match self.get(key) {
            Some(v) => {
                if v.len() > 0 {
                    Some(&v[0])
                } else {
                    None
                }
            },
            None => None,
        }
    }

    /// Records `score` under `key`: inserted into the bucket behind its
    /// equals, the bucket truncated to its bound; missing version or mode
    /// entries are created.  No other bucket changes.
    pub fn push(&mut self, key: &GameCond, score: Score)
        requires
            old(self).wf(),
        ensures
            final(self).wf(),
            spec_recorded(old(self).scores@, final(self).scores@, key.app_ver@, key.mode@,
                score),
    {
        match self.find_ver(&key.app_ver) {
            Some(vi) => {
                proof {
                    lemma_ver_idx(self.scores@, vi as int, key.app_ver@);
                }
                let ghost oldvers = self.scores@;
                let mut ver = self.scores.remove(vi);
                match find_mode(&ver.modes, &key.mode) {
                    Some(mi) => {
                        proof {
                            lemma_mode_idx(ver.modes@, mi as int, key.mode@);
                        }
                        let ghost oldmodes = ver.modes@;
                        let mut m = ver.modes.remove(mi);
                        push_into_bucket(&mut m.scores, score);
                        ver.modes.insert(mi, m);
                        proof {
                            assert(ver.modes@ =~= oldmodes.update(mi as int,
                                ver.modes@[mi as int]));
                        }
                    },
                    None => {
                        let mut bucket: Vec<Score> = Vec::new();
                        bucket.push(score);
                        ver.modes.push(ModeScores { mode: clone_string(&key.mode), scores: bucket });
                    },
                }
                self.scores.insert(vi, ver);
                proof {
                    assert(self.scores@ =~= oldvers.update(vi as int, self.scores@[vi as int]));
                }
            },
            None => {
                let mut bucket: Vec<Score> = Vec::new();
                bucket.push(score);
                let mut modes: Vec<ModeScores> = Vec::new();
                modes.push(ModeScores { mode: clone_string(&key.mode), scores: bucket });
                self.scores.push(VersionScores { app_ver: clone_string(&key.app_ver), modes });
            },
        }
    }

    /// Index of the version entry carrying `ver`, if any.
    fn find_ver(&self, ver: &String) -> (r: Option<usize>)
        ensures
            match r {
                Some(i) => i < self.scores@.len() && self.scores@[i as int].app_ver@ == ver@,
                None => !spec_has_ver(self.scores@, ver@),
            },
    {
        let n = self.scores.len();
        let mut i: usize = 0;
        while i < n
            invariant
                n == self.scores@.len(),
                i <= n,
                forall|k: int| 0 <= k < i ==> (#[trigger] self.scores@[k]).app_ver@ != ver@,
            decreases n - i,
        {
            if self.scores[i].app_ver.eq(ver) {
                return Some(i);
            }
            i = i + 1;
        }
        None
    }
}

/// Index of the mode entry carrying `mode`, if any.
fn find_mode(modes: &Vec<ModeScores>, mode: &String) -> (r: Option<usize>)
    ensures
        match r {
            Some(i) => i < modes@.len() && modes@[i as int].mode@ == mode@,
            None => !spec_has_mode(modes@, mode@),
        },
{
    let n = modes.len();
    let mut i: usize = 0;
    while i < n
        invariant
            n == modes@.len(),
            i <= n,
            forall|k: int| 0 <= k < i ==> (#[trigger] modes@[k]).mode@ != mode@,
        decreases n - i,
    {
        if modes[i].mode.eq(mode) {
            return Some(i);
        }
        i = i + 1;
    }
    None
}

/// A copy of a string key.
fn clone_string(s: &String) -> (r: String)
    ensures
        r@ == s@,
{
    s.as_str().to_owned()
}

/// With unique version keys, an index carrying `ver` is the one
/// `spec_ver_idx` names.
proof fn lemma_ver_idx(s: Seq<VersionScores>, i: int, ver: Seq<char>)
    requires
        forall|a: int, b: int| 0 <= a < b < s.len() ==> s[a].app_ver@ != s[b].app_ver@,
        0 <= i < s.len(),
        s[i].app_ver@ == ver,
    ensures
        spec_has_ver(s, ver),
        spec_ver_idx(s, ver) == i,
{
    assert(spec_has_ver(s, ver));
    let j = spec_ver_idx(s, ver);
    if i < j {
        assert(s[i].app_ver@ != s[j].app_ver@);
    } else if j < i {
        assert(s[j].app_ver@ != s[i].app_ver@);
    }
}

/// With unique mode keys, an index carrying `mode` is the one
/// `spec_mode_idx` names.
proof fn lemma_mode_idx(s: Seq<ModeScores>, i: int, mode: Seq<char>)
    requires
        forall|a: int, b: int| 0 <= a < b < s.len() ==> s[a].mode@ != s[b].mode@,
        0 <= i < s.len(),
        s[i].mode@ == mode,
    ensures
        spec_has_mode(s, mode),
        spec_mode_idx(s, mode) == i,
{
    assert(spec_has_mode(s, mode));
    let j = spec_mode_idx(s, mode);
    if i < j {
        assert(s[i].mode@ != s[j].mode@);
    } else if j < i {
        assert(s[j].mode@ != s[i].mode@);
    }
}

/// Inserts a score into a descending bucket behind its equals and truncates
/// the bucket to its bound.
fn push_into_bucket(bucket: &mut Vec<Score>, sc: Score)
    requires
        sorted_desc(old(bucket)@),
        old(bucket)@.len() <= SCORE_MAX_ENTRY_PER_SAME_COND,
    ensures
        final(bucket)@ == spec_pushed_scores(old(bucket)@, sc),
        sorted_desc(final(bucket)@),
        final(bucket)@.len() <= SCORE_MAX_ENTRY_PER_SAME_COND,
{
    let n = bucket.len();
    let mut p: usize = 0;
    while p < n
        invariant_except_break
            p <= n,
            forall|k: int| 0 <= k < p ==> (#[trigger] bucket@[k]).score >= sc.score,
        invariant
            n == bucket@.len(),
        ensures
            p <= n,
            forall|k: int| 0 <= k < p ==> (#[trigger] bucket@[k]).score >= sc.score,
            p < n ==> bucket@[p as int].score < sc.score,
        decreases n - p,
    {
        if bucket[p].score < sc.score {
            break;
        }
        p = p + 1;
    }
    proof {
        lemma_insert_pos(bucket@, sc, p as int);
    }
    let ghost oldb = bucket@;
    bucket.insert(p, sc);
    proof {
        assert forall|i: int, j: int| 0 <= i < j < bucket@.len() implies
            bucket@[i].score >= bucket@[j].score by {
            let i0 = if i < p as int { i } else { i - 1 };
            let j0 = if j < p as int { j } else { j - 1 };
            if i == p as int {
                assert(bucket@[j] == oldb[j0]);
                assert(j0 >= p as int);
            } else if j == p as int {
                assert(bucket@[i] == oldb[i0]);
            } else {
                assert(bucket@[i] == oldb[i0] && bucket@[j] == oldb[j0]);
            }
        };
    }
    if bucket.len() > SCORE_MAX_ENTRY_PER_SAME_COND {
        let ghost pre = bucket@;
        bucket.truncate(SCORE_MAX_ENTRY_PER_SAME_COND);
        proof {
            assert(bucket@ =~= pre.take(SCORE_MAX_ENTRY_PER_SAME_COND as int));
        }
    }
}

} // verus!
