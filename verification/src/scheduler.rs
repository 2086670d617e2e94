//! The scheduler ("pusher"): on every tick of its fixed-interval timer
//! it reads the complete set of monitored sites and appends one check
//! task per site to the queue as a single batch. An empty set is skipped
//! and is not an error; re-running a tick before the previous batch is
//! consumed only causes duplicate, harmless probes.

use crate::models::Website;
use crate::queue::{TaskQueue, WebsiteEvent};
use crate::store::Store;
use vstd::prelude::*;

verus! {

/// One queue payload per site, in order: the site's url and its store
/// id; the delivery handle stays empty until the queue assigns one.
pub fn build_events(websites: &Vec<Website>) -> (evs: Vec<WebsiteEvent>)
    ensures
        evs@.len() == websites@.len(),
        forall|i: int|
            0 <= i < evs@.len() ==> (#[trigger] evs@[i]).website@ == websites.deep_view()[i].url
                && evs@[i].id@ == websites.deep_view()[i].id && evs@[i].redis_id@.len() == 0,
{
    let mut evs: Vec<WebsiteEvent> = Vec::new();
    let n = websites.len();
    for j in 0..n
        invariant
            n == websites@.len(),
            evs@.len() == j,
            forall|i: int|
                0 <= i < j ==> (#[trigger] evs@[i]).website@ == websites.deep_view()[i].url
                    && evs@[i].id@ == websites.deep_view()[i].id && evs@[i].redis_id@.len() == 0,
    {
        let ev = WebsiteEvent {
            website: websites[j].url.clone(),
            id: websites[j].id.clone(),
            redis_id: String::new(),
        };
        evs.push(ev);
    }
    evs
}

/// One scheduler tick: lists every monitored site and appends one check
/// task per site as a single batch, in the sites' stored order. With no
/// sites nothing is appended. Returns how many tasks were appended.
pub fn pusher_tick(store: &mut Store, queue: &mut TaskQueue) -> (n: usize)
    requires
        old(queue)@.wf(),
    ensures
        final(queue)@.wf(),
        *final(store) == *old(store),
        n == old(store).websites.deep_view().len(),
        final(queue)@.groups == old(queue)@.groups,
        final(queue)@.entries.len() == old(queue)@.entries.len() + n,
        forall|j: int|
            0 <= j < old(queue)@.entries.len() ==> final(queue)@.entries[j] == old(
                queue,
            )@.entries[j],
        forall|k: int|
            0 <= k < n ==> {
                let e = #[trigger] final(queue)@.entries[old(queue)@.entries.len() + k];
                e.url == old(store).websites.deep_view()[k].url && e.site_id == old(
                    store,
                ).websites.deep_view()[k].id
            },
{
    let websites = match store.get_all_websites_global() {
        Ok(ws) => ws,
        Err(_) => {
            proof {
                assert(false);
            }
            Vec::new()
        },
    };
    let n = websites.len();
    if n == 0 {
        return 0;
    }
    let events = build_events(&websites);
    let _ids = queue.x_add_bulk(events);
    n
}

} // verus!
