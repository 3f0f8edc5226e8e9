//! The records the sync pipeline reads from the tasks table, the per-pipeline cache of user
//! credentials, and the joining of per-partition query results.
use vstd::prelude::*;

verus! {

/// A user's details row in the tasks table.
#[derive(Debug)]
pub struct UserRecord {
    pub user_id: String,
    pub record_type: String,
    pub data: String,
    pub google_refresh_token: Option<String>,
    pub notion_data: Option<UserRecordNotionData>,
}

/// The Notion bot linked to a user.
#[derive(Debug)]
pub struct UserRecordNotionData {
    pub notion_bot_id: String,
    pub notion_access_token: String,
}

/// A sync job row: which Notion database to sync with which Google calendar, and when.
#[derive(Debug)]
pub struct SyncRecord {
    pub user_id: String,
    pub record_type: String,
    /// includes next sync timestamp
    pub data: String,
    pub last_sync: Option<String>,
    pub notion_db_props: NotionDBPropertyOptions,
    pub google_calendar: String,
    pub notion_database: String,
}

/// The ids of the Notion database properties a sync reads.
#[derive(Debug)]
pub struct NotionDBPropertyOptions {
    pub notion_title_id: String,
    pub notion_done_id: String,
}

/// User records fetched during one run of the sync pipeline, at most one per user id.
pub struct UserCredentialsCache {
    users: Vec<UserRecord>,
    model: Ghost<Map<Seq<char>, UserRecord>>,
}

impl View for UserCredentialsCache {
    type V = Map<Seq<char>, UserRecord>;

    closed spec fn view(&self) -> Map<Seq<char>, UserRecord> {
        self.model@
    }
}

impl UserCredentialsCache {
    /// The records are keyed by their user id, one per id, and the map holds exactly them.
    pub closed spec fn wf(&self) -> bool {
        &&& forall|a: int, b: int|
            0 <= a < self.users@.len() && 0 <= b < self.users@.len() && a != b
                ==> #[trigger] self.users@[a].user_id@ != #[trigger] self.users@[b].user_id@
        &&& forall|i: int|
            0 <= i < self.users@.len() ==> #[trigger] self.model@.contains_key(
                self.users@[i].user_id@,
            ) && self.model@[self.users@[i].user_id@] == self.users@[i]
        &&& forall|k: Seq<char>|
            #[trigger] self.model@.contains_key(k) ==> exists|i: int|
                0 <= i < self.users@.len() && #[trigger] self.users@[i].user_id@ == k
    }

    pub fn new() -> (cache: Self)
        ensures
            cache.wf(),
            cache@ == Map::<Seq<char>, UserRecord>::empty(),
    {
        UserCredentialsCache { users: Vec::new(), model: Ghost(Map::empty()) }
    }

    fn position(&self, user_id: &String) -> (r: Option<usize>)
        requires
            self.wf(),
        ensures
            match r {
                Some(i) => i < self.users@.len() && self.users@[i as int].user_id@ == user_id@,
                None => !self@.contains_key(user_id@),
            },
    {
        let mut i: usize = 0;
        while i < self.users.len()
            invariant
                self.wf(),
                i <= self.users@.len(),
                forall|j: int| 0 <= j < i ==> #[trigger] self.users@[j].user_id@ != user_id@,
            decreases self.users@.len() - i,
        {
            if self.users[i].user_id == *user_id {
                return Some(i);
            }
            i = i + 1;
        }
        None
    }

    /// The cached record of `user_id`, if it was fetched before.
    pub fn get(&self, user_id: &String) -> (r: Option<&UserRecord>)
        requires
            self.wf(),
        ensures
            match r {
                Some(u) => self@.contains_key(user_id@) && self@[user_id@] == *u,
                None => !self@.contains_key(user_id@),
            },
    {
        match self.position(user_id) {
            Some(i) => {
                assert(self.model@.contains_key(self.users@[i as int].user_id@));
                Some(&self.users[i])
            },
            None => None,
        }
    }

    /// Keep `record` under its user id, in place of any record cached for that id.
    pub fn insert(&mut self, record: UserRecord)
        requires
            old(self).wf(),
        ensures
            final(self).wf(),
            final(self)@ == old(self)@.insert(record.user_id@, record),
    {
        let ghost id = record.user_id@;
        let ghost old_model = self.model@;
        match self.position(&record.user_id) {
            Some(i) => {
                let ghost old_users = self.users@;
                self.users.set(i, record);
                self.model = Ghost(old_model.insert(id, record));
                assert forall|j: int| 0 <= j < self.users@.len() implies #[trigger] self.model@.contains_key(
                    self.users@[j].user_id@,
                ) && self.model@[self.users@[j].user_id@] == self.users@[j] by {
                    if j != i {
                        assert(self.users@[j] == old_users[j]);
                        assert(old_users[j].user_id@ != old_users[i as int].user_id@);
                        assert(old_model.contains_key(old_users[j].user_id@));
                    }
                }
                assert forall|a: int, b: int|
                    0 <= a < self.users@.len() && 0 <= b < self.users@.len() && a != b
                    implies #[trigger] self.users@[a].user_id@ != #[trigger] self.users@[b].user_id@ by {
                    if a != i && b != i {
                        assert(old_users[a].user_id@ != old_users[b].user_id@);
                    } else if a == i {
                        assert(old_users[b].user_id@ != old_users[i as int].user_id@);
                    } else {
                        assert(old_users[a].user_id@ != old_users[i as int].user_id@);
                    }
                }
                assert forall|k: Seq<char>| #[trigger] self.model@.contains_key(k) implies exists|
                    j: int,
                | 0 <= j < self.users@.len() && #[trigger] self.users@[j].user_id@ == k by {
                    if k == id {
                        assert(self.users@[i as int].user_id@ == k);
                    } else {
                        assert(old_model.contains_key(k));
                        let j = choose|j: int| 0 <= j < old_users.len() && #[trigger] old_users[j].user_id@ == k;
                        assert(self.users@[j] == old_users[j]);
                    }
                }
            },
            None => {
                let ghost old_users = self.users@;
                self.users.push(record);
                self.model = Ghost(old_model.insert(id, record));
                assert forall|j: int| 0 <= j < self.users@.len() implies #[trigger] self.model@.contains_key(
                    self.users@[j].user_id@,
                ) && self.model@[self.users@[j].user_id@] == self.users@[j] by {
                    if j < old_users.len() {
                        assert(self.users@[j] == old_users[j]);
                        assert(old_model.contains_key(old_users[j].user_id@));
                    }
                }
                assert forall|a: int, b: int|
                    0 <= a < self.users@.len() && 0 <= b < self.users@.len() && a != b
                    implies #[trigger] self.users@[a].user_id@ != #[trigger] self.users@[b].user_id@ by {
                    let n = old_users.len() as int;
                    if a < n && b < n {
                        assert(old_users[a].user_id@ != old_users[b].user_id@);
                    } else if a == n {
                        assert(old_model.contains_key(old_users[b].user_id@));
                    } else {
                        assert(old_model.contains_key(old_users[a].user_id@));
                    }
                }
                assert forall|k: Seq<char>| #[trigger] self.model@.contains_key(k) implies exists|
                    j: int,
                | 0 <= j < self.users@.len() && #[trigger] self.users@[j].user_id@ == k by {
                    if k == id {
                        assert(self.users@[old_users.len() as int].user_id@ == k);
                    } else {
                        assert(old_model.contains_key(k));
                        let j = choose|j: int| 0 <= j < old_users.len() && #[trigger] old_users[j].user_id@ == k;
                        assert(self.users@[j] == old_users[j]);
                    }
                }
            },
        }
    }
}

/// The first error among per-partition query results, in the order given.
pub open spec fn first_error<T, E>(results: Seq<Result<Vec<T>, E>>) -> Option<E>
    decreases results.len(),
{
    if results.len() == 0 {
        None
    } else {
        match results[0] {
            Err(e) => Some(e),
            Ok(_) => first_error(results.drop_first()),
        }
    }
}

/// Every record of the successful per-partition results, in the order given.
pub open spec fn all_records<T, E>(results: Seq<Result<Vec<T>, E>>) -> Seq<T>
    decreases results.len(),
{
    if results.len() == 0 {
        Seq::empty()
    } else {
        match results[0] {
            Ok(v) => v@ + all_records(results.drop_first()),
            Err(_) => all_records(results.drop_first()),
        }
    }
}

/// Join the results of one tick's partition queries: all their records in order when every
/// query succeeded; otherwise the first failure, which fails the whole tick.
pub fn join_partition_results<T, E>(partition_results: Vec<Result<Vec<T>, E>>) -> (r: Result<
    Vec<T>,
    E,
>)
    ensures
        match first_error(partition_results@) {
            Some(e) => r == Err::<Vec<T>, E>(e),
            None => r is Ok && r->Ok_0@ == all_records(partition_results@),
        },
{
    let mut results = partition_results;
    let ghost given = results@;
    let mut records: Vec<T> = Vec::new();
    while results.len() > 0
        invariant
            given == partition_results@,
            first_error(given) == first_error(results@),
            all_records(given) == records@ + all_records(results@),
        decreases results@.len(),
    {
        let ghost before = results@;
        let next = results.remove(0);
        assert(results@ =~= before.drop_first());
        assert(next == before[0]);
        match next {
            Ok(mut v) => {
                let ghost vs = v@;
                records.append(&mut v);
                assert(records@ + all_records(results@) =~= (records@.subrange(
                    0,
                    records@.len() - vs.len(),
                ) + vs) + all_records(results@));
            },
            Err(e) => {
                assert(first_error(before) == Some(e));
                assert(first_error(given) == Some(e));
                return Err(e);
            },
        }
    }
    assert(records@ + all_records(results@) =~= records@);
    Ok(records)
}

} // verus!
