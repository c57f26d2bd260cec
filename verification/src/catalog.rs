//! The models that a provider lists, page by page.

use vstd::prelude::*;
use vstd::string::*;

use crate::config::ProviderAdapterKind;
use crate::model;
use crate::request;
use crate::sort;
use crate::text;

verus! {

/// A page of a listing.
pub struct ModelPage {
    pub ids: Vec<String>,
    pub has_more: bool,
    pub last_id: Option<String>,
}

/// Whether an id can name a model: it is not empty and holds no white space.
pub open spec fn usable_id(id: Seq<char>) -> bool {
    id.len() > 0 && forall|i: int| 0 <= i < id.len() ==> !text::is_white_spec(#[trigger] id[i])
}

/// The usable ids of a list, each once.
pub open spec fn kept_ids(ids: Seq<Seq<char>>) -> Seq<Seq<char>>
    decreases ids.len(),
{
    if ids.len() == 0 {
        seq![]
    } else {
        let before = kept_ids(ids.drop_last());
        if usable_id(ids.last()) && !before.contains(ids.last()) {
            before.push(ids.last())
        } else {
            before
        }
    }
}

/// A listing that is being read: the ids so far, each once, and the cursors
/// that were followed.
pub struct Listing {
    pub kept: Vec<String>,
    pub cursors: Vec<String>,
}

/// What follows a page.
pub enum PageStep {
    /// The listing is complete: its ids in order.
    Complete(Vec<String>),
    /// The page behind this cursor.
    Next(String),
    /// The listing cannot be read.
    Failed(String),
}

/// The address of a provider's listing.
pub fn listing_url(base: &str) -> (r: String)
    ensures
        r@ == request::base_spec(base@) + "/models"@,
{
    let trimmed = request::base_url(base);
    text::cat2(trimmed.as_str(), "/models")
}

fn usable(id: &str) -> (r: bool)
    ensures
        r == usable_id(id@),
{
    let v = text::chars(id);
    if v.len() == 0 {
        return false;
    }
    let mut i: usize = 0;
    while i < v.len()
        invariant
            i <= v@.len(),
            v@ == id@,
            forall|k: int| 0 <= k < i ==> !text::is_white_spec(#[trigger] id@[k]),
        decreases v@.len() - i,
    {
        if text::is_white(v[i]) {
            assert(text::is_white_spec(id@[i as int]));
            return false;
        }
        i = i + 1;
    }
    true
}

proof fn lemma_kept_ids(a: Seq<Seq<char>>, b: Seq<Seq<char>>)
    ensures
        kept_ids(kept_ids(a) + b) == kept_ids(a + b),
    decreases b.len(),
{
    if b.len() == 0 {
        assert(kept_ids(a) + b =~= kept_ids(a));
        assert(a + b =~= a);
        lemma_kept_again(a);
    } else {
        assert((kept_ids(a) + b).drop_last() =~= kept_ids(a) + b.drop_last());
        assert((a + b).drop_last() =~= a + b.drop_last());
        lemma_kept_ids(a, b.drop_last());
    }
}

proof fn lemma_kept_again(a: Seq<Seq<char>>)
    ensures
        kept_ids(kept_ids(a)) == kept_ids(a),
    decreases a.len(),
{
    if a.len() > 0 {
        let before = kept_ids(a.drop_last());
        lemma_kept_again(a.drop_last());
        if usable_id(a.last()) && !before.contains(a.last()) {
            assert(before.push(a.last()).drop_last() =~= before);
        }
    }
}

impl Listing {
    /// A listing of which nothing was read yet.
    pub fn new() -> (r: Listing)
        ensures
            text::views(r.kept@) == kept_ids(seq![]),
            text::views(r.cursors@).len() == 0,
    {
        let r = Listing { kept: Vec::new(), cursors: Vec::new() };
        assert(text::views(r.kept@) =~= kept_ids(seq![]));
        r
    }

    /// Take a page. Only the messages protocol has more than one; there a
    /// page that is not the last names a cursor that was not followed yet.
    pub fn take_page(&mut self, kind: ProviderAdapterKind, page: &ModelPage) -> (r: PageStep)
        ensures
            forall|seen: Seq<Seq<char>>|
                text::views(old(self).kept@) == #[trigger] kept_ids(seen) ==> text::views(
                    final(self).kept@,
                ) == kept_ids(seen + text::views(page.ids@)),
            ({
                let more = kind == ProviderAdapterKind::AnthropicMessages && page.has_more;
                let followed = text::views(old(self).cursors@);
                match r {
                    PageStep::Complete(ids) => !more && text::views(ids@) == sort::sorted_spec(
                        text::views(final(self).kept@),
                    ) && final(self).cursors@ == old(self).cursors@,
                    PageStep::Next(cursor) => more && model::option_text(page.last_id) == Some(
                        cursor@,
                    ) && cursor@.len() > 0 && !followed.contains(cursor@) && text::views(
                        final(self).cursors@,
                    ) == followed.push(cursor@),
                    PageStep::Failed(words) => more && final(self).cursors@ == old(self).cursors@
                        && match page.last_id {
                        Some(id) => if id@.len() == 0 {
                            words@ == "model listing omitted its pagination cursor"@
                        } else {
                            followed.contains(id@) && words@
                                == "model listing repeated its pagination cursor"@
                        },
                        None => words@ == "model listing omitted its pagination cursor"@,
                    },
                }
            }),
    {
        let ghost start = text::views(self.kept@);
        let ghost all = text::views(page.ids@);
        let mut i: usize = 0;
        assert(start + all.take(0) =~= start);
        while i < page.ids.len()
            invariant
                i <= page.ids@.len(),
                all == text::views(page.ids@),
                self.cursors@ == old(self).cursors@,
                forall|seen: Seq<Seq<char>>|
                    start == #[trigger] kept_ids(seen) ==> text::views(self.kept@) == kept_ids(
                        seen + all.take(i as int),
                    ),
            decreases page.ids@.len() - i,
        {
            let id = &page.ids[i];
            if usable(id.as_str()) && !text::listed(&self.kept, id.as_str()) {
                text::add_text(&mut self.kept, id.clone());
            }
            assert forall|seen: Seq<Seq<char>>| start == #[trigger] kept_ids(seen) implies text::views(
                self.kept@,
            ) == kept_ids(seen + all.take(i + 1)) by {
                assert((seen + all.take(i + 1)).drop_last() =~= seen + all.take(i as int));
                assert((seen + all.take(i + 1)).last() == all[i as int]);
            }
            i = i + 1;
        }
        assert(all.take(all.len() as int) =~= all);
        if kind != ProviderAdapterKind::AnthropicMessages || !page.has_more {
            let copy = text::copy_list(&self.kept);
            return PageStep::Complete(sort::sort_texts(copy));
        }
        match &page.last_id {
            Some(id) => {
                if id.as_str().is_empty() {
                    return PageStep::Failed(
                        "model listing omitted its pagination cursor".to_owned(),
                    );
                }
                if text::listed(&self.cursors, id.as_str()) {
                    return PageStep::Failed(
                        "model listing repeated its pagination cursor".to_owned(),
                    );
                }
                text::add_text(&mut self.cursors, id.clone());
                PageStep::Next(id.clone())
            },
            None => PageStep::Failed("model listing omitted its pagination cursor".to_owned()),
        }
    }
}

proof fn lemma_kept(ids: Seq<Seq<char>>)
    ensures
        kept_ids(ids).no_duplicates(),
        forall|id: Seq<char>|
            #[trigger] kept_ids(ids).contains(id) <==> usable_id(id) && ids.contains(id),
    decreases ids.len(),
{
    if ids.len() > 0 {
        let before = kept_ids(ids.drop_last());
        lemma_kept(ids.drop_last());
        assert forall|id: Seq<char>| #[trigger] kept_ids(ids).contains(id) <==> usable_id(id)
            && ids.contains(id) by {
            if kept_ids(ids).contains(id) {
                let k = kept_ids(ids).index_of(id);
                if k < before.len() {
                    assert(before[k] == id);
                    assert(before.contains(id));
                    let j = ids.drop_last().index_of(id);
                    assert(ids[j] == id);
                } else {
                    assert(ids[ids.len() - 1] == id);
                }
            }
            if usable_id(id) && ids.contains(id) {
                let j = ids.index_of(id);
                if j < ids.len() - 1 {
                    assert(ids.drop_last()[j] == id);
                    assert(before.contains(id));
                    let k = before.index_of(id);
                    assert(kept_ids(ids)[k] == id);
                } else if !before.contains(id) {
                    assert(kept_ids(ids)[before.len() as int] == id);
                } else {
                    let k = before.index_of(id);
                    assert(kept_ids(ids)[k] == id);
                }
            }
        }
    }
}

/// A complete listing holds exactly the usable ids that the provider named,
/// each once, in ascending order.
pub proof fn law_listings_are_sorted_and_unique(ids: Seq<Seq<char>>)
    ensures
        ({
            let listed = sort::sorted_spec(kept_ids(ids));
            &&& sort::ascending(listed)
            &&& listed.no_duplicates()
            &&& forall|id: Seq<char>|
                #[trigger] listed.contains(id) <==> usable_id(id) && ids.contains(id)
        }),
{
    broadcast use vstd::seq_lib::group_to_multiset_ensures;

    let kept = kept_ids(ids);
    let listed = sort::sorted_spec(kept);
    lemma_kept(ids);
    sort::law_sorting_orders_and_keeps(kept);
    kept.lemma_multiset_has_no_duplicates();
    listed.lemma_multiset_has_no_duplicates_conv();
    assert forall|id: Seq<char>| #[trigger] listed.contains(id) <==> usable_id(id) && ids.contains(
        id,
    ) by {
        assert(listed.contains(id) <==> listed.to_multiset().count(id) > 0);
        assert(kept.contains(id) <==> kept.to_multiset().count(id) > 0);
    }
}

/// Whether pages are read one after the other or all at once makes no
/// difference to what is kept.
pub proof fn law_pages_add_up(first: Seq<Seq<char>>, second: Seq<Seq<char>>)
    ensures
        kept_ids(kept_ids(first) + second) == kept_ids(first + second),
{
    lemma_kept_ids(first, second);
}

} // verus!
