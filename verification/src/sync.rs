//! Sync checkpoint tracking: which feed items are new against the persisted
//! checkpoint, and when the checkpoint may advance.
//!
//! The checkpoint is the link of the most recently forwarded item.  Scanning
//! from the newest item, everything before the first item carrying the
//! checkpoint link is new; a checkpoint absent from the current feed is
//! stale and every item counts as new.  The checkpoint advances only after
//! the forwarder confirms success, and then to the link of the newest
//! forwarded item.

use vstd::prelude::*;

use crate::feed::{FeedItem, FeedItemView, opt_view};

verus! {

/// Index of the first item at or after `i` whose link equals the
/// checkpoint, or the number of items when none does.
pub open spec fn new_count_from(items: Seq<FeedItemView>, cp: Seq<char>, i: int) -> int
    decreases items.len() - i,
    when 0 <= i <= items.len()
{
    if i >= items.len() {
        i
    } else if items[i].stortinget_link == Some(cp) {
        i
    } else {
        new_count_from(items, cp, i + 1)
    }
}

pub proof fn lemma_new_count_bounds(items: Seq<FeedItemView>, cp: Seq<char>, i: int)
    requires
        0 <= i <= items.len(),
    ensures
        i <= new_count_from(items, cp, i) <= items.len(),
    decreases items.len() - i,
{
    if i < items.len() && !(items[i].stortinget_link == Some(cp)) {
        lemma_new_count_bounds(items, cp, i + 1);
    }
}

/// The first index with the checkpoint link is pinned by what stands
/// before it.
pub proof fn lemma_new_count_pinned(items: Seq<FeedItemView>, cp: Seq<char>, k: int)
    requires
        0 <= k <= items.len(),
        forall|j: int| 0 <= j < k ==> items[j].stortinget_link != Some(cp),
        k < items.len() ==> items[k].stortinget_link == Some(cp),
    ensures
        new_count_from(items, cp, 0) == k,
{
    lemma_new_count_pinned_from(items, cp, 0, k);
}

proof fn lemma_new_count_pinned_from(items: Seq<FeedItemView>, cp: Seq<char>, i: int, k: int)
    requires
        0 <= i <= k <= items.len(),
        forall|j: int| i <= j < k ==> items[j].stortinget_link != Some(cp),
        k < items.len() ==> items[k].stortinget_link == Some(cp),
    ensures
        new_count_from(items, cp, i) == k,
    decreases k - i,
{
    if i < k {
        lemma_new_count_pinned_from(items, cp, i + 1, k);
    }
}

/// The new-item slice: everything strictly before the first item carrying
/// the checkpoint link; the whole feed when the checkpoint is absent or
/// does not occur.
pub open spec fn spec_new_slice(items: Seq<FeedItemView>, cp: Option<Seq<char>>) -> Seq<
    FeedItemView,
> {
    match cp {
        None => items,
        Some(c) => items.subrange(0, new_count_from(items, c, 0)),
    }
}

/// The items that are new against the stored checkpoint, newest first.
pub fn new_items(items: &Vec<FeedItem>, checkpoint: Option<&String>) -> (r: Vec<FeedItem>)
    ensures
        r@.map_values(|x: FeedItem| x@) == spec_new_slice(
            items@.map_values(|x: FeedItem| x@),
            match checkpoint {
                Some(c) => Some(c@),
                None => None,
            },
        ),
{
    let ghost iv = items@.map_values(|x: FeedItem| x@);
    let mut r: Vec<FeedItem> = Vec::new();
    match checkpoint {
        None => {
            let mut i: usize = 0;
            while i < items.len()
                invariant
                    i <= items@.len(),
                    iv == items@.map_values(|x: FeedItem| x@),
                    r@.map_values(|x: FeedItem| x@) == iv.subrange(0, i as int),
                decreases items@.len() - i,
            {
                let it = items[i].duplicate();
                proof {
                    assert(r@.push(it).map_values(|x: FeedItem| x@) =~= r@.map_values(
                        |x: FeedItem| x@,
                    ).push(it@));
                    assert(iv.subrange(0, i as int).push(iv[i as int]) =~= iv.subrange(
                        0,
                        (i + 1) as int,
                    ));
                }
                r.push(it);
                i = i + 1;
            }
            proof {
                assert(iv.subrange(0, iv.len() as int) =~= iv);
            }
            r
        },
        Some(cp) => {
            let mut i: usize = 0;
            let n = items.len();
            while i < n
                invariant
                    n == items@.len(),
                    i <= n,
                    checkpoint == Some(cp),
                    iv == items@.map_values(|x: FeedItem| x@),
                    forall|j: int| 0 <= j < i ==> iv[j].stortinget_link != Some(cp@),
                    r@.map_values(|x: FeedItem| x@) == iv.subrange(0, i as int),
                decreases n - i,
            {
                proof {
                    assert(iv[i as int] == items@[i as int]@);
                }
                let hit = match &items[i].stortinget_link {
                    Some(l) => *l == *cp,
                    None => false,
                };
                proof {
                    assert(hit == (iv[i as int].stortinget_link == Some(cp@)));
                }
                if hit {
                    proof {
                        lemma_new_count_pinned(iv, cp@, i as int);
                    }
                    return r;
                }
                let it = items[i].duplicate();
                proof {
                    assert(r@.push(it).map_values(|x: FeedItem| x@) =~= r@.map_values(
                        |x: FeedItem| x@,
                    ).push(it@));
                    assert(iv.subrange(0, i as int).push(iv[i as int]) =~= iv.subrange(
                        0,
                        (i + 1) as int,
                    ));
                }
                r.push(it);
                i = i + 1;
            }
            proof {
                lemma_new_count_pinned(iv, cp@, n as int);
                assert(iv.subrange(0, iv.len() as int) =~= iv);
            }
            r
        },
    }
}

/// The checkpoint after a forwarding round: it advances to the link of the
/// newest forwarded item exactly when forwarding succeeded and that item
/// carries a link; otherwise it stays.
pub open spec fn spec_checkpoint_after(
    batch: Seq<FeedItemView>,
    forward_ok: bool,
    current: Option<Seq<char>>,
) -> Option<Seq<char>> {
    if forward_ok && batch.len() > 0 && batch[0].stortinget_link is Some {
        batch[0].stortinget_link
    } else {
        current
    }
}

/// Decide the checkpoint after one forwarding round.
pub fn checkpoint_after(batch: &Vec<FeedItem>, forward_ok: bool, current: Option<&String>) -> (r:
    Option<String>)
    ensures
        opt_view(r) == spec_checkpoint_after(
            batch@.map_values(|x: FeedItem| x@),
            forward_ok,
            match current {
                Some(c) => Some(c@),
                None => None,
            },
        ),
{
    let kept: Option<String> = match current {
        Some(c) => Some(c.clone()),
        None => None,
    };
    if forward_ok && batch.len() > 0 {
        proof {
            assert(batch@.map_values(|x: FeedItem| x@)[0] == batch@[0]@);
        }
        match &batch[0].stortinget_link {
            Some(l) => Some(l.clone()),
            None => kept,
        }
    } else {
        kept
    }
}

/// A failed forwarding round never moves the checkpoint.
pub proof fn lemma_failed_forward_keeps_checkpoint(
    batch: Seq<FeedItemView>,
    current: Option<Seq<char>>,
)
    ensures
        spec_checkpoint_after(batch, false, current) == current,
{
}

/// A checkpoint link that occurs nowhere in the feed is stale: every item
/// is new.
pub proof fn lemma_stale_checkpoint_takes_all(items: Seq<FeedItemView>, cp: Seq<char>)
    requires
        forall|j: int| 0 <= j < items.len() ==> items[j].stortinget_link != Some(cp),
    ensures
        spec_new_slice(items, Some(cp)) == items,
{
    lemma_new_count_pinned(items, cp, items.len() as int);
    assert(items.subrange(0, items.len() as int) =~= items);
}

/// An empty new-item slice leaves the checkpoint untouched whatever the
/// round did.
pub proof fn lemma_empty_batch_keeps_checkpoint(forward_ok: bool, current: Option<Seq<char>>)
    ensures
        spec_checkpoint_after(Seq::empty(), forward_ok, current) == current,
{
}

/// Document fetch counts as successful exactly on a 2xx status; anything
/// else is an attempt failure.
pub fn fetch_status_ok(status: u16) -> (r: bool)
    ensures
        r == (200 <= status < 300),
{
    200 <= status && status < 300
}

/// Forwarding counts as successful exactly on status 200; any other
/// status, other 2xx included, is a failure.
pub fn forward_status_ok(status: u16) -> (r: bool)
    ensures
        r == (status == 200),
{
    status == 200
}

/// What an inbound webhook call leads to, in the order the checks run:
/// secret mismatch, malformed payload, a record without a link, work.
#[derive(Clone, Copy, Debug, PartialEq, Eq, Structural)]
pub enum WebhookDisposition {
    Unauthorized,
    InvalidPayload,
    SkippedNoLink,
    Process,
}

/// The disposition of an inbound webhook call.
pub open spec fn spec_webhook_disposition(
    secret_matches: bool,
    payload_ok: bool,
    has_link: bool,
) -> WebhookDisposition {
    if !secret_matches {
        WebhookDisposition::Unauthorized
    } else if !payload_ok {
        WebhookDisposition::InvalidPayload
    } else if !has_link {
        WebhookDisposition::SkippedNoLink
    } else {
        WebhookDisposition::Process
    }
}

/// Decide an inbound webhook call: a secret mismatch is rejected before the
/// payload is looked at, a malformed payload before the link, and a record
/// without a link is skipped without downstream work.
pub fn webhook_disposition(secret_matches: bool, payload_ok: bool, has_link: bool) -> (r:
    WebhookDisposition)
    ensures
        r == spec_webhook_disposition(secret_matches, payload_ok, has_link),
{
    if !secret_matches {
        WebhookDisposition::Unauthorized
    } else if !payload_ok {
        WebhookDisposition::InvalidPayload
    } else if !has_link {
        WebhookDisposition::SkippedNoLink
    } else {
        WebhookDisposition::Process
    }
}

} // verus!
