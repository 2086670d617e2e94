//! The result store: account rows, monitored sites, and the append-only
//! tick history, with the read primitives the other components call.
//!
//! The store is a value held by the process; durability behind it (a
//! relational backend, a file) is the embedding program's concern.

use crate::models::{TickModel, Website, WebsiteBucket, WebsiteModel, WebsiteStatus, WebsiteTick};
use crate::seq_util::{lemma_filter_empty, lemma_filter_push};
use vstd::prelude::*;
use vstd::seq_lib::lemma_multiset_commutative;

verus! {

broadcast use vstd::seq_lib::group_seq_lib_default;

/// An account row.
#[derive(Debug)]
pub struct User {
    pub id: String,
    pub username: String,
    pub password: String,
    pub email: String,
}

/// Mathematical value of a [`User`].
#[verifier::ext_equal]
pub struct UserModel {
    pub id: Seq<char>,
    pub username: Seq<char>,
    pub password: Seq<char>,
    pub email: Seq<char>,
}

impl View for User {
    type V = UserModel;

    open spec fn view(&self) -> UserModel {
        UserModel {
            id: self.id@,
            username: self.username@,
            password: self.password@,
            email: self.email@,
        }
    }
}

impl DeepView for User {
    type V = UserModel;

    open spec fn deep_view(&self) -> UserModel {
        self.view()
    }
}

/// Why a store read failed.
#[derive(Clone, Copy, Debug, PartialEq, Eq, Structural)]
pub enum StoreError {
    NotFound,
}

/// The store's tables.
pub struct Store {
    pub users: Vec<User>,
    pub websites: Vec<Website>,
    pub ticks: Vec<WebsiteTick>,
}

/// Relies on uuid::Uuid::new_v4 and its hyphenated `Display` form: a
/// fresh random identifier, 36 characters long. Of a random value
/// nothing more is promised.
#[verifier::external_body]
fn new_uuid() -> (r: String)
    ensures
        r@.len() == 36,
{
    uuid::Uuid::new_v4().to_string()
}

/// Relies on chrono::Utc::now: the current time as seconds since the
/// Unix epoch. Of a clock reading nothing is promised.
#[verifier::external_body]
fn now_epoch_secs() -> (r: i64) {
    chrono::Utc::now().timestamp()
}

/// The users whose username equals `name`, in insertion order.
pub open spec fn users_named(users: Seq<UserModel>, name: Seq<char>) -> Seq<UserModel> {
    users.filter(|u: UserModel| u.username == name)
}

/// The users whose id equals `id`, in insertion order.
pub open spec fn users_with_id(users: Seq<UserModel>, id: Seq<char>) -> Seq<UserModel> {
    users.filter(|u: UserModel| u.id == id)
}

/// The sites owned by `owner`, in insertion order.
pub open spec fn sites_of(sites: Seq<WebsiteModel>, owner: Seq<char>) -> Seq<WebsiteModel> {
    sites.filter(|w: WebsiteModel| w.user_id == owner)
}

/// The sites with the given id owned by `owner`.
pub open spec fn sites_with_id(
    sites: Seq<WebsiteModel>,
    id: Seq<char>,
    owner: Seq<char>,
) -> Seq<WebsiteModel> {
    sites.filter(|w: WebsiteModel| w.id == id && w.user_id == owner)
}

impl Store {
    /// An empty store.
    pub fn new() -> (s: Store)
        ensures
            s.users.deep_view() == Seq::<UserModel>::empty(),
            s.websites.deep_view() == Seq::<WebsiteModel>::empty(),
            s.ticks.deep_view() == Seq::<TickModel>::empty(),
    {
        let s = Store { users: Vec::new(), websites: Vec::new(), ticks: Vec::new() };
        proof {
            assert(s.users.deep_view() =~= Seq::<UserModel>::empty());
            assert(s.websites.deep_view() =~= Seq::<WebsiteModel>::empty());
            assert(s.ticks.deep_view() =~= Seq::<TickModel>::empty());
        }
        s
    }

    /// Creates an account with a fresh id and returns the id.
    pub fn sign_up(&mut self, username: String, password: String, email: String) -> (r: Result<
        String,
        StoreError,
    >)
        ensures
            r is Ok,
            r matches Ok(id) && id@.len() == 36,
            final(self).users.deep_view() == old(self).users.deep_view().push(
                UserModel {
                    id: r->Ok_0@,
                    username: username@,
                    password: password@,
                    email: email@,
                },
            ),
            final(self).websites == old(self).websites,
            final(self).ticks == old(self).ticks,
    {
        let id = new_uuid();
        let id_copy = id.clone();
        let ghost pre = self.users.deep_view();
        let u = User { id, username, password, email };
        self.users.push(u);
        proof {
            assert(self.users.deep_view() =~~= pre.push(
                UserModel {
                    id: id_copy@,
                    username: username@,
                    password: password@,
                    email: email@,
                },
            ));
        }
        Ok(id_copy)
    }

    /// Returns the id and password hash of the first user with the given
    /// username; `NotFound` if and only if no user has it.
    pub fn get_user_by_username(&mut self, input_username: &str) -> (r: Result<
        (String, String),
        StoreError,
    >)
        ensures
            *final(self) == *old(self),
            r is Ok <==> users_named(old(self).users.deep_view(), input_username@).len() > 0,
            r matches Ok((id, password)) ==> {
                let u = users_named(old(self).users.deep_view(), input_username@)[0];
                id@ == u.id && password@ == u.password
            },
    {
        let ghost us = self.users.deep_view();
        let ghost pred = |u: UserModel| u.username == input_username@;
        let owned: String = input_username.to_owned();
        let n = self.users.len();
        proof {
            assert(us.take(0) =~= Seq::<UserModel>::empty());
            lemma_filter_empty(pred);
        }
        for j in 0..n
            invariant
                n == us.len(),
                us == self.users.deep_view(),
                *self == *old(self),
                owned@ == input_username@,
                pred == (|u: UserModel| u.username == input_username@),
                us.take(j as int).filter(pred).len() == 0,
        {
            proof {
                assert(us.take(j + 1) =~= us.take(j as int).push(us[j as int]));
                lemma_filter_push(us.take(j as int), us[j as int], pred);
            }
            if self.users[j].username == owned {
                proof {
                    assert(pred(us[j as int]));
                    assert(us =~= us.take(j + 1) + us.skip(j + 1));
                    assert(us.filter(pred) == us.take(j + 1).filter(pred) + us.skip(j + 1).filter(
                        pred,
                    ));
                    assert(us.filter(pred)[0] == us[j as int]);
                }
                return Ok((self.users[j].id.clone(), self.users[j].password.clone()));
            }
        }
        proof {
            assert(us.take(n as int) =~= us);
        }
        Err(StoreError::NotFound)
    }

    /// Returns the email of the first user with the given id; `NotFound`
    /// if and only if no user has it.
    pub fn get_user_by_id(&mut self, user_id: &str) -> (r: Result<String, StoreError>)
        ensures
            *final(self) == *old(self),
            r is Ok <==> users_with_id(old(self).users.deep_view(), user_id@).len() > 0,
            r matches Ok(email) ==> email@ == users_with_id(
                old(self).users.deep_view(),
                user_id@,
            )[0].email,
    {
        let ghost us = self.users.deep_view();
        let ghost pred = |u: UserModel| u.id == user_id@;
        let owned: String = user_id.to_owned();
        let n = self.users.len();
        proof {
            assert(us.take(0) =~= Seq::<UserModel>::empty());
            lemma_filter_empty(pred);
        }
        for j in 0..n
            invariant
                n == us.len(),
                us == self.users.deep_view(),
                *self == *old(self),
                owned@ == user_id@,
                pred == (|u: UserModel| u.id == user_id@),
                us.take(j as int).filter(pred).len() == 0,
        {
            proof {
                assert(us.take(j + 1) =~= us.take(j as int).push(us[j as int]));
                lemma_filter_push(us.take(j as int), us[j as int], pred);
            }
            if self.users[j].id == owned {
                proof {
                    assert(pred(us[j as int]));
                    assert(us =~= us.take(j + 1) + us.skip(j + 1));
                    assert(us.filter(pred) == us.take(j + 1).filter(pred) + us.skip(j + 1).filter(
                        pred,
                    ));
                    assert(us.filter(pred)[0] == us[j as int]);
                }
                return Ok(self.users[j].email.clone());
            }
        }
        proof {
            assert(us.take(n as int) =~= us);
        }
        Err(StoreError::NotFound)
    }

    /// Registers a site for the account and returns the stored row, whose
    /// id is fresh and whose `time_added` is the clock's reading.
    pub fn create_website(&mut self, user_id: String, url: String) -> (r: Result<
        Website,
        StoreError,
    >)
        ensures
            r is Ok,
            r matches Ok(w) && w.id@.len() == 36 && w.url@ == url@ && w.user_id@ == user_id@,
            final(self).websites.deep_view() == old(self).websites.deep_view().push(r->Ok_0@),
            final(self).users == old(self).users,
            final(self).ticks == old(self).ticks,
    {
        let id = new_uuid();
        let now = now_epoch_secs();
        let w = Website { id: id.clone(), url: url.clone(), time_added: now, user_id: user_id.clone() };
        let returned = Website { id, url, time_added: now, user_id };
        let ghost pre = self.websites.deep_view();
        self.websites.push(w);
        proof {
            assert(self.websites.deep_view() =~~= pre.push(returned@));
        }
        Ok(returned)
    }

    /// Deletes the account's sites with the given id and returns how many
    /// rows went away; deleting a site that is not there deletes nothing.
    pub fn delete_website(&mut self, target_id: &str, owner_id: &str) -> (r: Result<
        usize,
        StoreError,
    >)
        ensures
            r is Ok,
            final(self).websites.deep_view() == old(self).websites.deep_view().filter(
                |w: WebsiteModel| !(w.id == target_id@ && w.user_id == owner_id@),
            ),
            r->Ok_0 == old(self).websites.deep_view().len() - final(self).websites.deep_view().len(),
            final(self).users == old(self).users,
            final(self).ticks == old(self).ticks,
    {
        let ghost ws = self.websites.deep_view();
        let ghost keep = |w: WebsiteModel| !(w.id == target_id@ && w.user_id == owner_id@);
        let tid: String = target_id.to_owned();
        let oid: String = owner_id.to_owned();
        let mut kept: Vec<Website> = Vec::new();
        let n = self.websites.len();
        proof {
            assert(ws.take(0) =~= Seq::<WebsiteModel>::empty());
            lemma_filter_empty(keep);
            assert(kept.deep_view() =~= ws.take(0).filter(keep));
        }
        for j in 0..n
            invariant
                n == ws.len(),
                ws == self.websites.deep_view(),
                self.users == old(self).users,
                self.ticks == old(self).ticks,
                self.websites == old(self).websites,
                tid@ == target_id@,
                oid@ == owner_id@,
                keep == (|w: WebsiteModel| !(w.id == target_id@ && w.user_id == owner_id@)),
                kept.deep_view() == ws.take(j as int).filter(keep),
        {
            proof {
                assert(ws.take(j + 1) =~= ws.take(j as int).push(ws[j as int]));
                lemma_filter_push(ws.take(j as int), ws[j as int], keep);
            }
            let is_target = self.websites[j].id == tid && self.websites[j].user_id == oid;
            if !is_target {
                let ghost kept_pre = kept.deep_view();
                let w = Website {
                    id: self.websites[j].id.clone(),
                    url: self.websites[j].url.clone(),
                    time_added: self.websites[j].time_added,
                    user_id: self.websites[j].user_id.clone(),
                };
                proof {
                    assert(w@ =~~= ws[j as int]);
                }
                kept.push(w);
                proof {
                    assert(kept.deep_view() =~~= kept_pre.push(ws[j as int]));
                }
            } else {
                proof {
                    assert(!keep(ws[j as int]));
                }
            }
        }
        proof {
            assert(ws.take(n as int) =~= ws);
            assert(ws.filter(keep).len() <= ws.len());
        }
        let removed = n - kept.len();
        self.websites = kept;
        Ok(removed)
    }

    /// Returns the account's site with the given id; `NotFound` if and
    /// only if the account has no such site.
    pub fn get_website(&mut self, target_id: &str, owner_id: &str) -> (r: Result<
        Website,
        StoreError,
    >)
        ensures
            *final(self) == *old(self),
            r is Ok <==> sites_with_id(old(self).websites.deep_view(), target_id@, owner_id@).len()
                > 0,
            r matches Ok(w) ==> w@ == sites_with_id(
                old(self).websites.deep_view(),
                target_id@,
                owner_id@,
            )[0],
    {
        let ghost ws = self.websites.deep_view();
        let ghost pred = |w: WebsiteModel| w.id == target_id@ && w.user_id == owner_id@;
        let tid: String = target_id.to_owned();
        let oid: String = owner_id.to_owned();
        let n = self.websites.len();
        proof {
            assert(ws.take(0) =~= Seq::<WebsiteModel>::empty());
            lemma_filter_empty(pred);
        }
        for j in 0..n
            invariant
                n == ws.len(),
                ws == self.websites.deep_view(),
                *self == *old(self),
                tid@ == target_id@,
                oid@ == owner_id@,
                pred == (|w: WebsiteModel| w.id == target_id@ && w.user_id == owner_id@),
                ws.take(j as int).filter(pred).len() == 0,
        {
            proof {
                assert(ws.take(j + 1) =~= ws.take(j as int).push(ws[j as int]));
                lemma_filter_push(ws.take(j as int), ws[j as int], pred);
            }
            if self.websites[j].id == tid && self.websites[j].user_id == oid {
                proof {
                    assert(pred(ws[j as int]));
                    assert(ws =~= ws.take(j + 1) + ws.skip(j + 1));
                    assert(ws.filter(pred) == ws.take(j + 1).filter(pred) + ws.skip(j + 1).filter(
                        pred,
                    ));
                    assert(ws.filter(pred)[0] == ws[j as int]);
                }
                let w = Website {
                    id: self.websites[j].id.clone(),
                    url: self.websites[j].url.clone(),
                    time_added: self.websites[j].time_added,
                    user_id: self.websites[j].user_id.clone(),
                };
                proof {
                    assert(w@ =~~= ws[j as int]);
                }
                return Ok(w);
            }
        }
        proof {
            assert(ws.take(n as int) =~= ws);
        }
        Err(StoreError::NotFound)
    }

    /// Returns all of the account's sites, in insertion order.
    pub fn get_user_websites(&mut self, owner_id: &str) -> (r: Result<Vec<Website>, StoreError>)
        ensures
            *final(self) == *old(self),
            r is Ok,
            r->Ok_0.deep_view() == sites_of(old(self).websites.deep_view(), owner_id@),
    {
        let ghost ws = self.websites.deep_view();
        let ghost pred = |w: WebsiteModel| w.user_id == owner_id@;
        let oid: String = owner_id.to_owned();
        let mut out: Vec<Website> = Vec::new();
        let n = self.websites.len();
        proof {
            assert(ws.take(0) =~= Seq::<WebsiteModel>::empty());
            lemma_filter_empty(pred);
            assert(out.deep_view() =~= ws.take(0).filter(pred));
        }
        for j in 0..n
            invariant
                n == ws.len(),
                ws == self.websites.deep_view(),
                *self == *old(self),
                oid@ == owner_id@,
                pred == (|w: WebsiteModel| w.user_id == owner_id@),
                out.deep_view() == ws.take(j as int).filter(pred),
        {
            proof {
                assert(ws.take(j + 1) =~= ws.take(j as int).push(ws[j as int]));
                lemma_filter_push(ws.take(j as int), ws[j as int], pred);
            }
            if self.websites[j].user_id == oid {
                let ghost out_pre = out.deep_view();
                let w = Website {
                    id: self.websites[j].id.clone(),
                    url: self.websites[j].url.clone(),
                    time_added: self.websites[j].time_added,
                    user_id: self.websites[j].user_id.clone(),
                };
                proof {
                    assert(w@ =~~= ws[j as int]);
                }
                out.push(w);
                proof {
                    assert(out.deep_view() =~~= out_pre.push(ws[j as int]));
                }
            } else {
                proof {
                    assert(!pred(ws[j as int]));
                }
            }
        }
        proof {
            assert(ws.take(n as int) =~= ws);
        }
        Ok(out)
    }

    /// Returns every monitored site, in insertion order: what the
    /// scheduler enqueues from.
    pub fn get_all_websites_global(&mut self) -> (r: Result<Vec<Website>, StoreError>)
        ensures
            *final(self) == *old(self),
            r is Ok,
            r->Ok_0.deep_view() == old(self).websites.deep_view(),
    {
        let ghost ws = self.websites.deep_view();
        let mut out: Vec<Website> = Vec::new();
        let n = self.websites.len();
        proof {
            assert(out.deep_view() =~= ws.take(0));
        }
        for j in 0..n
            invariant
                n == ws.len(),
                ws == self.websites.deep_view(),
                *self == *old(self),
                out.deep_view() == ws.take(j as int),
        {
            let ghost out_pre = out.deep_view();
            let w = Website {
                id: self.websites[j].id.clone(),
                url: self.websites[j].url.clone(),
                time_added: self.websites[j].time_added,
                user_id: self.websites[j].user_id.clone(),
            };
            proof {
                assert(w@ =~~= ws[j as int]);
            }
            out.push(w);
            proof {
                assert(ws.take(j + 1) =~= ws.take(j as int).push(ws[j as int]));
                assert(out.deep_view() =~~= out_pre.push(ws[j as int]));
            }
        }
        proof {
            assert(ws.take(n as int) =~= ws);
        }
        Ok(out)
    }

    /// Persists one probe outcome as a tick row with a fresh id and the
    /// clock's reading as its `created_at`, and returns the stored row.
    pub fn create_website_tick(
        &mut self,
        website_id: String,
        region_id: String,
        response_time: i32,
        status: WebsiteStatus,
    ) -> (r: Result<WebsiteTick, StoreError>)
        ensures
            r is Ok,
            r matches Ok(t) && t.id@.len() == 36 && t.website_id@ == website_id@ && t.region_id@
                == region_id@ && t.response_time == response_time && t.status == status,
            final(self).ticks.deep_view() == old(self).ticks.deep_view().push(r->Ok_0@),
            final(self).users == old(self).users,
            final(self).websites == old(self).websites,
    {
        let id = new_uuid();
        let now = now_epoch_secs();
        let t = WebsiteTick {
            id: id.clone(),
            response_time,
            status,
            region_id: region_id.clone(),
            website_id: website_id.clone(),
            created_at: now,
        };
        let returned = WebsiteTick {
            id,
            response_time,
            status,
            region_id,
            website_id,
            created_at: now,
        };
        let ghost pre = self.ticks.deep_view();
        self.ticks.push(t);
        proof {
            assert(self.ticks.deep_view() =~~= pre.push(returned@));
        }
        Ok(returned)
    }
}

/// The ticks of one site, under the optional region filter, in stored
/// order.
pub open spec fn ticks_matching(
    ticks: Seq<TickModel>,
    website_id: Seq<char>,
    region: Option<Seq<char>>,
) -> Seq<TickModel> {
    ticks.filter(
        |t: TickModel|
            t.website_id == website_id && (match region {
                Some(r) => t.region_id == r,
                None => true,
            }),
    )
}

/// Inserts a tick into a newest-first list: it goes after every tick
/// that is not older, so ticks with equal timestamps keep their relative
/// order.
pub open spec fn insert_desc(s: Seq<TickModel>, t: TickModel) -> Seq<TickModel>
    decreases s.len(),
{
    if s.len() == 0 {
        seq![t]
    } else if s[0].created_at >= t.created_at {
        seq![s[0]] + insert_desc(s.drop_first(), t)
    } else {
        seq![t] + s
    }
}

/// The ticks ordered newest-first, by stable insertion.
pub open spec fn sort_desc(s: Seq<TickModel>) -> Seq<TickModel>
    decreases s.len(),
{
    if s.len() == 0 {
        s
    } else {
        insert_desc(sort_desc(s.drop_last()), s.last())
    }
}

/// Where `insert_desc` puts the tick: at the first position whose tick
/// is older.
proof fn lemma_insert_desc_at(s: Seq<TickModel>, t: TickModel, pos: int)
    requires
        0 <= pos <= s.len(),
        forall|i: int| 0 <= i < pos ==> (#[trigger] s[i]).created_at >= t.created_at,
        pos < s.len() ==> s[pos].created_at < t.created_at,
    ensures
        insert_desc(s, t) == s.take(pos) + seq![t] + s.skip(pos),
    decreases s.len(),
{
    if pos == 0 {
        if s.len() == 0 {
            assert(insert_desc(s, t) =~= s.take(0) + seq![t] + s.skip(0));
        } else {
            assert(s[0].created_at < t.created_at);
            assert(insert_desc(s, t) =~= s.take(0) + seq![t] + s.skip(0));
        }
    } else {
        assert(s[0].created_at >= t.created_at);
        let d = s.drop_first();
        assert forall|i: int| 0 <= i < pos - 1 implies (#[trigger] d[i]).created_at
            >= t.created_at by {
            assert(s[i + 1].created_at >= t.created_at);
        }
        assert(pos - 1 < d.len() ==> d[pos - 1].created_at < t.created_at);
        lemma_insert_desc_at(d, t, pos - 1);
        assert(insert_desc(s, t) =~= s.take(pos) + seq![t] + s.skip(pos));
    }
}

/// Insertion keeps a newest-first list newest-first and one longer.
proof fn lemma_insert_desc_sorted(s: Seq<TickModel>, t: TickModel)
    requires
        forall|i: int, j: int|
            0 <= i < j < s.len() ==> s[i].created_at >= s[j].created_at,
    ensures
        insert_desc(s, t).len() == s.len() + 1,
        forall|i: int, j: int|
            0 <= i < j < insert_desc(s, t).len() ==> insert_desc(s, t)[i].created_at >= insert_desc(
                s,
                t,
            )[j].created_at,
    decreases s.len(),
{
    if s.len() == 0 {
    } else if s[0].created_at >= t.created_at {
        let d = s.drop_first();
        assert forall|i: int, j: int| 0 <= i < j < d.len() implies d[i].created_at
            >= d[j].created_at by {
            assert(s[i + 1].created_at >= s[j + 1].created_at);
        }
        lemma_insert_desc_sorted(d, t);
        let r = seq![s[0]] + insert_desc(d, t);
        assert forall|i: int, j: int| 0 <= i < j < r.len() implies r[i].created_at
            >= r[j].created_at by {
            if i == 0 {
                let rd = insert_desc(d, t);
                assert(r[j] == rd[j - 1]);
                if rd[j - 1] == t {
                } else {
                    assert forall|k: int| 0 <= k < rd.len() implies rd[k] == t || exists|w: int|
                        0 <= w < d.len() && rd[k] == d[w] by {
                        lemma_insert_desc_members(d, t, k);
                    }
                    let w = choose|w: int| 0 <= w < d.len() && rd[j - 1] == d[w];
                    assert(s[0].created_at >= s[w + 1].created_at);
                }
            } else {
                assert(insert_desc(d, t)[i - 1].created_at >= insert_desc(d, t)[j
                    - 1].created_at);
            }
        }
    } else {
    }
}

/// Every element of an insertion result is the inserted tick or one of
/// the list's ticks.
proof fn lemma_insert_desc_members(s: Seq<TickModel>, t: TickModel, k: int)
    requires
        0 <= k < insert_desc(s, t).len(),
    ensures
        insert_desc(s, t)[k] == t || exists|w: int| 0 <= w < s.len() && insert_desc(s, t)[k] == s[w],
    decreases s.len(),
{
    if s.len() == 0 {
    } else if s[0].created_at >= t.created_at {
        if k == 0 {
            assert(insert_desc(s, t)[0] == s[0]);
        } else {
            let d = s.drop_first();
            lemma_insert_desc_members(d, t, k - 1);
            assert(insert_desc(s, t)[k] == insert_desc(d, t)[k - 1]);
            if insert_desc(d, t)[k - 1] == t {
            } else {
                let w = choose|w: int| 0 <= w < d.len() && insert_desc(d, t)[k - 1] == d[w];
                assert(insert_desc(s, t)[k] == s[w + 1]);
            }
        }
    } else {
        if k == 0 {
        } else {
            assert(insert_desc(s, t)[k] == s[k - 1]);
        }
    }
}

/// Insertion adds exactly the inserted tick to the list's contents.
proof fn lemma_insert_desc_multiset(s: Seq<TickModel>, t: TickModel)
    ensures
        insert_desc(s, t).to_multiset() == s.to_multiset().insert(t),
    decreases s.len(),
{
    broadcast use vstd::seq_lib::group_to_multiset_ensures;

    if s.len() == 0 {
        assert(seq![t] =~= Seq::<TickModel>::empty().push(t));
        assert(insert_desc(s, t).to_multiset() =~= s.to_multiset().insert(t));
    } else if s[0].created_at >= t.created_at {
        let d = s.drop_first();
        lemma_insert_desc_multiset(d, t);
        lemma_multiset_commutative(seq![s[0]], insert_desc(d, t));
        assert(s =~= seq![s[0]] + d);
        lemma_multiset_commutative(seq![s[0]], d);
        assert(insert_desc(s, t).to_multiset() =~= s.to_multiset().insert(t));
    } else {
        lemma_multiset_commutative(seq![t], s);
        assert(seq![t] =~= Seq::<TickModel>::empty().push(t));
        assert(insert_desc(s, t).to_multiset() =~= s.to_multiset().insert(t));
    }
}

/// Sorting neither adds, drops nor duplicates ticks: the output holds
/// exactly the input's ticks.
pub proof fn lemma_sort_desc_permutes(s: Seq<TickModel>)
    ensures
        sort_desc(s).to_multiset() == s.to_multiset(),
    decreases s.len(),
{
    broadcast use vstd::seq_lib::group_to_multiset_ensures;

    if s.len() == 0 {
    } else {
        lemma_sort_desc_permutes(s.drop_last());
        lemma_insert_desc_multiset(sort_desc(s.drop_last()), s.last());
        assert(s =~= s.drop_last().push(s.last()));
    }
}

/// What `sort_desc` yields has the same length and is ordered
/// newest-first.
pub proof fn lemma_sort_desc_sorted(s: Seq<TickModel>)
    ensures
        sort_desc(s).len() == s.len(),
        forall|i: int, j: int|
            0 <= i < j < sort_desc(s).len() ==> sort_desc(s)[i].created_at >= sort_desc(
                s,
            )[j].created_at,
    decreases s.len(),
{
    if s.len() == 0 {
    } else {
        lemma_sort_desc_sorted(s.drop_last());
        lemma_insert_desc_sorted(sort_desc(s.drop_last()), s.last());
    }
}

/// Copies a tick row.
fn clone_tick(t: &WebsiteTick) -> (r: WebsiteTick)
    ensures
        r@ == t@,
{
    let r = WebsiteTick {
        id: t.id.clone(),
        response_time: t.response_time,
        status: t.status,
        region_id: t.region_id.clone(),
        website_id: t.website_id.clone(),
        created_at: t.created_at,
    };
    proof {
        assert(r@ =~~= t@);
    }
    r
}

impl Store {
    /// Returns up to `limit` of the site's ticks, newest first, under the
    /// optional region filter.
    pub fn get_ticks(
        &mut self,
        target_website_id: &str,
        target_region_id: Option<&str>,
        limit: i64,
    ) -> (r: Result<Vec<WebsiteTick>, StoreError>)
        requires
            0 <= limit,
        ensures
            *final(self) == *old(self),
            r is Ok,
            r->Ok_0.deep_view() == ({
                let m = ticks_matching(
                    old(self).ticks.deep_view(),
                    target_website_id@,
                    target_region_id.deep_view(),
                );
                sort_desc(m).take(
                    if limit as int <= m.len() as int {
                        limit as int
                    } else {
                        m.len() as int
                    },
                )
            }),
    {
        let ghost ts = self.ticks.deep_view();
        let ghost rv = target_region_id.deep_view();
        let ghost pred = |t: TickModel|
            t.website_id == target_website_id@ && (match rv {
                Some(r) => t.region_id == r,
                None => true,
            });
        let site: String = target_website_id.to_owned();
        let region_owned: Option<String> = match target_region_id {
            Some(r) => Some(r.to_owned()),
            None => None,
        };
        let mut filtered: Vec<WebsiteTick> = Vec::new();
        let n = self.ticks.len();
        proof {
            assert(ts.take(0) =~= Seq::<TickModel>::empty());
            lemma_filter_empty(pred);
            assert(filtered.deep_view() =~= ts.take(0).filter(pred));
        }
        for j in 0..n
            invariant
                n == ts.len(),
                ts == self.ticks.deep_view(),
                *self == *old(self),
                site@ == target_website_id@,
                rv == target_region_id.deep_view(),
                (match region_owned {
                    Some(ref r) => rv == Some(r@),
                    None => rv is None,
                }),
                pred == (|t: TickModel|
                    t.website_id == target_website_id@ && (match rv {
                        Some(r) => t.region_id == r,
                        None => true,
                    })),
                filtered.deep_view() == ts.take(j as int).filter(pred),
        {
            proof {
                assert(ts.take(j + 1) =~= ts.take(j as int).push(ts[j as int]));
                lemma_filter_push(ts.take(j as int), ts[j as int], pred);
            }
            let site_ok = self.ticks[j].website_id == site;
            let region_ok = match &region_owned {
                Some(r) => self.ticks[j].region_id == *r,
                None => true,
            };
            if site_ok && region_ok {
                let ghost f_pre = filtered.deep_view();
                let t = clone_tick(&self.ticks[j]);
                filtered.push(t);
                proof {
                    assert(pred(ts[j as int]));
                    assert(filtered.deep_view() =~~= f_pre.push(ts[j as int]));
                }
            } else {
                proof {
                    assert(!pred(ts[j as int]));
                }
            }
        }
        proof {
            assert(ts.take(n as int) =~= ts);
        }
        let ghost m = ts.filter(pred);
        // sort the matching ticks newest-first by stable insertion
        let mut sorted: Vec<WebsiteTick> = Vec::new();
        let fn_len = filtered.len();
        proof {
            assert(m.take(0) =~= Seq::<TickModel>::empty());
            assert(sorted.deep_view() =~= sort_desc(m.take(0)));
        }
        for j in 0..fn_len
            invariant
                fn_len == m.len(),
                m == filtered.deep_view(),
                filtered.deep_view() == ts.filter(pred),
                sorted.deep_view() == sort_desc(m.take(j as int)),
                sorted@.len() == j,
                forall|a: int, b: int|
                    0 <= a < b < sorted.deep_view().len() ==> sorted.deep_view()[a].created_at
                        >= sorted.deep_view()[b].created_at,
        {
            let t = clone_tick(&filtered[j]);
            let mut pos: usize = 0;
            let slen = sorted.len();
            while pos < slen && sorted[pos].created_at >= t.created_at
                invariant
                    pos <= slen,
                    slen == sorted@.len(),
                    t@ == m[j as int],
                    sorted.deep_view() == sort_desc(m.take(j as int)),
                    forall|i: int|
                        0 <= i < pos ==> sorted.deep_view()[i].created_at >= t@.created_at,
                decreases slen - pos,
            {
                pos = pos + 1;
            }
            let ghost s_pre = sorted.deep_view();
            sorted.insert(pos, t);
            proof {
                lemma_insert_desc_at(s_pre, m[j as int], pos as int);
                assert(m.take(j + 1) =~= m.take(j as int).push(m[j as int]));
                assert(m.take(j + 1).drop_last() =~= m.take(j as int));
                assert(sort_desc(m.take(j + 1)) == insert_desc(
                    sort_desc(m.take(j as int)),
                    m[j as int],
                ));
                assert(sorted.deep_view() =~~= s_pre.take(pos as int) + seq![m[j as int]]
                    + s_pre.skip(pos as int));
                lemma_insert_desc_sorted(s_pre, m[j as int]);
            }
        }
        proof {
            assert(m.take(fn_len as int) =~= m);
        }
        // cap at the limit
        let cap: usize = if (limit as u64) <= (fn_len as u64) {
            limit as usize
        } else {
            fn_len
        };
        let mut out: Vec<WebsiteTick> = Vec::new();
        proof {
            assert(out.deep_view() =~= sort_desc(m).take(0));
        }
        for j in 0..cap
            invariant
                cap <= sorted@.len(),
                sorted.deep_view() == sort_desc(m),
                out.deep_view() == sort_desc(m).take(j as int),
        {
            let ghost o_pre = out.deep_view();
            let t = clone_tick(&sorted[j]);
            out.push(t);
            proof {
                assert(sort_desc(m).take(j + 1) =~= sort_desc(m).take(j as int).push(
                    sort_desc(m)[j as int],
                ));
                assert(out.deep_view() =~~= o_pre.push(sort_desc(m)[j as int]));
            }
        }
        proof {
            lemma_sort_desc_sorted(m);
            assert(out.deep_view() =~~= sort_desc(m).take(
                if limit as int <= m.len() as int {
                    limit as int
                } else {
                    m.len() as int
                },
            ));
        }
        Ok(out)
    }

    /// Derives the site's time-bucketed aggregates over `[start, end]`
    /// under the optional region filter, with the bucket width chosen by
    /// the window's span: one aggregate per nonempty bucket, ascending.
    #[verifier::rlimit(50)]
    pub fn get_analytics_graph(
        &mut self,
        target_website_id: &str,
        start: i64,
        end: i64,
        region: Option<&str>,
    ) -> (r: Result<Vec<WebsiteBucket>, StoreError>)
        requires
            0 <= start <= end,
            end - start <= i64::MAX,
            old(self).ticks.deep_view().len() <= 0x7fff_ffff,
        ensures
            *final(self) == *old(self),
            r is Ok,
            crate::analytics::is_bucket_list(
                r->Ok_0@,
                old(self).ticks.deep_view(),
                target_website_id@,
                start as int,
                end as int,
                region.deep_view(),
                crate::analytics::spec_bucket_width(end - start),
            ),
            forall|i: int|
                0 <= i < r->Ok_0@.len() ==> (#[trigger] r->Ok_0@[i]).total_count <= old(
                    self,
                ).ticks.deep_view().len() && -0x8000_0000 <= r->Ok_0@[i].avg_response_time
                    <= 0x7fff_ffff,
    {
        let width = crate::analytics::bucket_width_secs(start, end);
        let site: String = target_website_id.to_owned();
        let region_owned: Option<String> = match region {
            Some(r) => Some(r.to_owned()),
            None => None,
        };
        let region_ref: Option<&String> = match &region_owned {
            Some(r) => Some(r),
            None => None,
        };
        proof {
            assert(region_ref.deep_view() == region.deep_view());
        }
        let out = crate::analytics::compute_buckets(&self.ticks, &site, start, end, region_ref, width);
        proof {
            assert(crate::analytics::is_bucket_list(
                out@,
                old(self).ticks.deep_view(),
                target_website_id@,
                start as int,
                end as int,
                region.deep_view(),
                crate::analytics::spec_bucket_width(end - start),
            ));
        }
        Ok(out)
    }

    /// How long the site's current status has held, in seconds, as of
    /// the clock's reading; a site with no ticks has no streak. The full
    /// streak, with its direction and start, comes from
    /// [`crate::analytics::current_streak_at`], which this method asks at
    /// the current time.
    pub fn get_current_streak(&mut self, target_website_id: &str) -> (r: Result<
        Option<i64>,
        StoreError,
    >)
        ensures
            *final(self) == *old(self),
            r is Ok,
            r->Ok_0 is Some <==> crate::analytics::site_ticks(
                old(self).ticks.deep_view(),
                target_website_id@,
            ).len() > 0,
    {
        let site: String = target_website_id.to_owned();
        let now = now_epoch_secs();
        match crate::analytics::current_streak_at(&self.ticks, &site, now) {
            Some(s) => Ok(Some(s.duration)),
            None => Ok(None),
        }
    }
}

} // verus!
