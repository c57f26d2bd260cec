//! Fallback chains of models: their order, and whether they leave the local
//! data boundary.

use vstd::prelude::*;
use vstd::string::*;

use crate::config::{Config, DataBoundary};
use crate::text;

verus! {

/// Why a chain cannot be built.
pub enum ChainError {
    UnknownModel(String),
    UnknownProvider(String),
}

/// What a chain error stands for.
pub enum ChainFault {
    UnknownModel(Seq<char>),
    UnknownProvider(Seq<char>),
}

impl View for ChainError {
    type V = ChainFault;

    open spec fn view(&self) -> ChainFault {
        match self {
            ChainError::UnknownModel(s) => ChainFault::UnknownModel(s@),
            ChainError::UnknownProvider(s) => ChainFault::UnknownProvider(s@),
        }
    }
}

/// The words for a chain error.
pub open spec fn chain_fault_text(fault: ChainFault) -> Seq<char> {
    match fault {
        ChainFault::UnknownModel(s) => "unknown model `"@ + s + "`"@,
        ChainFault::UnknownProvider(s) => "unknown provider `"@ + s + "`"@,
    }
}

impl ChainError {
    /// The words for the error.
    pub fn message(&self) -> (out: String)
        ensures
            out@ == chain_fault_text(self@),
    {
        match self {
            ChainError::UnknownModel(s) => text::cat3("unknown model `", s.as_str(), "`"),
            ChainError::UnknownProvider(s) => text::cat3("unknown provider `", s.as_str(), "`"),
        }
    }
}

/// How many of the first `n` models have not been visited.
pub open spec fn unvisited(c: Config, seen: Seq<Seq<char>>, n: int) -> nat
    decreases n,
{
    if n <= 0 {
        0
    } else {
        unvisited(c, seen, n - 1) + if seen.contains(c.models.entries@[n - 1].0@) {
            0nat
        } else {
            1nat
        }
    }
}

/// How many models have not been visited.
pub open spec fn models_left(c: Config, seen: Seq<Seq<char>>) -> nat {
    unvisited(c, seen, c.models.entries@.len() as int)
}

proof fn lemma_visit(c: Config, seen: Seq<Seq<char>>, name: Seq<char>, n: int)
    requires
        !seen.contains(name),
        0 <= n <= c.models.entries@.len(),
    ensures
        unvisited(c, seen.push(name), n) <= unvisited(c, seen, n),
        (exists|i: int| 0 <= i < n && (#[trigger] c.models.entries@[i]).0@ == name) ==> unvisited(
            c,
            seen.push(name),
            n,
        ) < unvisited(c, seen, n),
    decreases n,
{
    if n > 0 {
        lemma_visit(c, seen, name, n - 1);
        let row = c.models.entries@[n - 1].0@;
        assert(seen.push(name)[seen.len() as int] == name);
        assert(seen.contains(row) ==> seen.push(name).contains(row)) by {
            if seen.contains(row) {
                let k = choose|k: int| 0 <= k < seen.len() && seen[k] == row;
                assert(seen.push(name)[k] == row);
            }
        }
        if exists|i: int| 0 <= i < n && (#[trigger] c.models.entries@[i]).0@ == name {
            let i = choose|i: int| 0 <= i < n && (#[trigger] c.models.entries@[i]).0@ == name;
            if i == n - 1 {
                assert(seen.push(name).contains(row));
            } else {
                assert(c.models.entries@[i].0@ == name);
            }
        }
    }
}

/// Visiting a model that is there leaves fewer unvisited.
pub proof fn lemma_visit_known(c: Config, seen: Seq<Seq<char>>, name: Seq<char>)
    requires
        !seen.contains(name),
        c.models.has_name(name),
    ensures
        models_left(c, seen.push(name)) < models_left(c, seen),
{
    c.models.lemma_row_from(name, 0);
    let i = c.models.row(name)->0;
    assert(c.models.entries@[i].0@ == name);
    lemma_visit(c, seen, name, c.models.entries@.len() as int);
}

/// The fallbacks of a model that is there.
pub open spec fn fallbacks(c: Config, name: Seq<char>) -> Seq<Seq<char>> {
    text::views(c.models.at(name).fallback@)
}

/// The models visited from `queue` on, where `seen` were visited before:
/// breadth first, each once.
pub open spec fn chain_spec(c: Config, queue: Seq<Seq<char>>, seen: Seq<Seq<char>>) -> Result<
    Seq<Seq<char>>,
    ChainFault,
>
    decreases models_left(c, seen), queue.len(),
{
    if queue.len() == 0 {
        Ok(seen)
    } else {
        let name = queue[0];
        if seen.contains(name) {
            chain_spec(c, queue.skip(1), seen)
        } else if !c.models.has_name(name) {
            Err(ChainFault::UnknownModel(name))
        } else if !c.providers.has_name(c.models.at(name).provider@) {
            Err(ChainFault::UnknownProvider(c.models.at(name).provider@))
        } else {
            proof {
                lemma_visit_known(c, seen, name);
            }
            chain_spec(c, queue.skip(1) + fallbacks(c, name), seen.push(name))
        }
    }
}

/// The models that a client for `model_name` tries, in order: the model, then
/// its fallback chain, breadth first with cycles ignored.
pub fn fallback_chain(config: &Config, model_name: &str) -> (r: Result<Vec<String>, ChainError>)
    ensures
        ({
            let expected = chain_spec(*config, seq![model_name@], seq![]);
            match r {
                Ok(labels) => expected == Ok::<Seq<Seq<char>>, ChainFault>(
                    text::views(labels@),
                ),
                Err(e) => expected == Err::<Seq<Seq<char>>, ChainFault>(e@),
            }
        }),
{
    let mut queue: Vec<String> = Vec::new();
    let mut seen: Vec<String> = Vec::new();
    queue.push(model_name.to_owned());
    let ghost expected = chain_spec(*config, seq![model_name@], seq![]);
    assert(text::views(queue@).skip(0) =~= seq![model_name@]);
    assert(text::views(seen@) =~= seq![]);
    let mut head: usize = 0;
    while head < queue.len()
        invariant
            head <= queue@.len(),
            expected == chain_spec(*config, seq![model_name@], seq![]),
            expected == chain_spec(
                *config,
                text::views(queue@).skip(head as int),
                text::views(seen@),
            ),
        decreases models_left(*config, text::views(seen@)), queue@.len() - head,
    {
        let ghost rest = text::views(queue@).skip(head as int);
        let name = queue[head].clone();
        assert(rest[0] == name@);
        assert(rest.skip(1) =~= text::views(queue@).skip(head + 1));
        head = head + 1;
        if !text::listed(&seen, name.as_str()) {
            match config.models.get(name.as_str()) {
                None => {
                    return Err(ChainError::UnknownModel(name));
                },
                Some(model) => {
                    if !config.providers.contains(model.provider.as_str()) {
                        return Err(ChainError::UnknownProvider(model.provider.clone()));
                    }
                    let ghost queued = text::views(queue@);
                    let ghost more = text::views(model.fallback@);
                    let mut k: usize = 0;
                    assert(queued + more.take(0) =~= queued);
                    while k < model.fallback.len()
                        invariant
                            k <= model.fallback@.len(),
                            more == text::views(model.fallback@),
                            text::views(queue@) == queued + more.take(k as int),
                        decreases model.fallback@.len() - k,
                    {
                        text::add_text(&mut queue, model.fallback[k].clone());
                        assert(queued + more.take(k + 1) =~= (queued + more.take(k as int)).push(
                            more[k as int],
                        ));
                        k = k + 1;
                    }
                    assert(more.take(more.len() as int) =~= more);
                    assert(text::views(queue@).len() == queue@.len());
                    assert(text::views(queue@).skip(head as int) =~= rest.skip(1) + more);
                    proof {
                        lemma_visit_known(*config, text::views(seen@), name@);
                    }
                    text::add_text(&mut seen, name);
                },
            }
        }
    }
    assert(text::views(queue@).skip(head as int) =~= seq![]);
    Ok(seen)
}

/// Whether a model and its provider are configured.
pub open spec fn known(c: Config, name: Seq<char>) -> bool {
    c.models.has_name(name) && c.providers.has_name(c.models.at(name).provider@)
}

/// Every model of a chain is configured, and so is its provider.
pub proof fn lemma_chain_is_known(c: Config, queue: Seq<Seq<char>>, seen: Seq<Seq<char>>)
    requires
        forall|i: int| 0 <= i < seen.len() ==> known(c, #[trigger] seen[i]),
    ensures
        chain_spec(c, queue, seen) matches Ok(names) ==> forall|i: int|
            0 <= i < names.len() ==> known(c, #[trigger] names[i]),
    decreases models_left(c, seen), queue.len(),
{
    if queue.len() > 0 {
        let name = queue[0];
        if seen.contains(name) {
            lemma_chain_is_known(c, queue.skip(1), seen);
        } else if known(c, name) {
            lemma_visit_known(c, seen, name);
            assert forall|i: int| 0 <= i < seen.push(name).len() implies known(
                c,
                #[trigger] seen.push(name)[i],
            ) by {
                if i < seen.len() {
                    assert(known(c, seen[i]));
                }
            }
            lemma_chain_is_known(c, queue.skip(1) + fallbacks(c, name), seen.push(name));
        }
    }
}

proof fn lemma_chain_keeps(c: Config, queue: Seq<Seq<char>>, seen: Seq<Seq<char>>)
    requires
        chain_spec(c, queue, seen) is Ok,
        seen.no_duplicates(),
    ensures
        chain_spec(c, queue, seen)->Ok_0.no_duplicates(),
        chain_spec(c, queue, seen)->Ok_0.len() >= seen.len(),
        forall|i: int| 0 <= i < seen.len() ==> chain_spec(c, queue, seen)->Ok_0[i] == seen[i],
        (forall|i: int| 0 <= i < seen.len() ==> c.models.has_name(#[trigger] seen[i])) ==> forall|
            i: int,
        |
            0 <= i < chain_spec(c, queue, seen)->Ok_0.len() ==> c.models.has_name(
                #[trigger] chain_spec(c, queue, seen)->Ok_0[i],
            ),
    decreases models_left(c, seen), queue.len(),
{
    if queue.len() > 0 {
        let name = queue[0];
        if seen.contains(name) {
            lemma_chain_keeps(c, queue.skip(1), seen);
        } else {
            lemma_visit_known(c, seen, name);
            lemma_chain_keeps(c, queue.skip(1) + fallbacks(c, name), seen.push(name));
            let out = chain_spec(c, queue, seen)->Ok_0;
            assert forall|i: int| 0 <= i < seen.len() implies out[i] == seen[i] by {
                assert(out[i] == seen.push(name)[i]);
            }
        }
    }
}

/// A chain begins with the model asked for, holds each model once, and only
/// models that are configured.
pub proof fn law_chain_starts_with_its_model_and_repeats_none(c: Config, model: Seq<char>)
    requires
        chain_spec(c, seq![model], seq![]) is Ok,
    ensures
        ({
            let chain = chain_spec(c, seq![model], seq![])->Ok_0;
            &&& chain.len() > 0
            &&& chain[0] == model
            &&& chain.no_duplicates()
            &&& forall|i: int| 0 <= i < chain.len() ==> c.models.has_name(#[trigger] chain[i])
        }),
{
    let empty = Seq::<Seq<char>>::empty();
    lemma_visit_known(c, empty, model);
    lemma_chain_keeps(c, seq![model].skip(1) + fallbacks(c, model), empty.push(model));
    assert(empty.push(model) =~= seq![model]);
    let chain = chain_spec(c, seq![model], seq![])->Ok_0;
    assert(chain[0] == empty.push(model)[0]);
}

// ---------------------------------------------------------------------------
// The external boundary
// ---------------------------------------------------------------------------

/// Whether requests to a model leave the local boundary.
pub open spec fn is_external(c: Config, name: Seq<char>) -> bool {
    c.models.has_name(name) && c.providers.has_name(c.models.at(name).provider@) && c.providers.at(
        c.models.at(name).provider@,
    ).data_boundary == DataBoundary::External
}

/// Whether each model of a path lists the next as a fallback.
pub open spec fn is_path(c: Config, path: Seq<Seq<char>>) -> bool {
    &&& path.len() > 0
    &&& forall|i: int|
        0 <= i < path.len() - 1 ==> c.models.has_name(#[trigger] path[i]) && fallbacks(
            c,
            path[i],
        ).contains(path[i + 1])
}

/// Whether `to` is reached from `from` along fallbacks.
pub open spec fn reached(c: Config, from: Seq<char>, to: Seq<char>) -> bool {
    exists|path: Seq<Seq<char>>| #[trigger]
        is_path(c, path) && path[0] == from && path.last() == to
}

/// Whether a model or one of those it may fall back to is external.
pub open spec fn reaches_external(c: Config, model: Seq<char>) -> bool {
    exists|to: Seq<char>| #[trigger] reached(c, model, to) && is_external(c, to)
}

proof fn lemma_reach_next(c: Config, from: Seq<char>, mid: Seq<char>, to: Seq<char>)
    requires
        reached(c, from, mid),
        c.models.has_name(mid),
        fallbacks(c, mid).contains(to),
    ensures
        reached(c, from, to),
{
    let path = choose|path: Seq<Seq<char>>| #[trigger]
        is_path(c, path) && path[0] == from && path.last() == mid;
    let longer = path.push(to);
    assert forall|i: int| 0 <= i < longer.len() - 1 implies c.models.has_name(#[trigger] longer[i])
        && fallbacks(c, longer[i]).contains(longer[i + 1]) by {
        if i < path.len() - 1 {
            assert(longer[i] == path[i]);
            assert(longer[i + 1] == path[i + 1]);
        } else {
            assert(longer[i] == mid);
        }
    }
    assert(is_path(c, longer));
    assert(longer.last() == to);
}

proof fn lemma_path_stays(c: Config, path: Seq<Seq<char>>, seen: Seq<Seq<char>>, i: int)
    requires
        is_path(c, path),
        seen.contains(path[0]),
        0 <= i < path.len(),
        forall|k: int, x: Seq<char>|
            0 <= k < seen.len() && c.models.has_name(#[trigger] seen[k])
                && #[trigger] fallbacks(c, seen[k]).contains(x) ==> seen.contains(x),
    ensures
        seen.contains(path[i]),
    decreases i,
{
    if i > 0 {
        lemma_path_stays(c, path, seen, i - 1);
        assert(c.models.has_name(path[i - 1]));
        let k = choose|k: int| 0 <= k < seen.len() && seen[k] == path[i - 1];
        assert(fallbacks(c, seen[k]).contains(path[i]));
    }
}

/// Whether the model or one it may fall back to sends its requests outside
/// the local boundary.
pub fn model_chain_reaches_external(config: &Config, model_name: &str) -> (r: bool)
    ensures
        r == reaches_external(*config, model_name@),
{
    let mut queue: Vec<String> = Vec::new();
    let mut seen: Vec<String> = Vec::new();
    queue.push(model_name.to_owned());
    let mut head: usize = 0;
    proof {
        let start = seq![model_name@];
        assert(is_path(*config, start));
        assert(start[0] == model_name@ && start.last() == model_name@);
        assert(text::views(queue@)[0] == model_name@);
    }
    while head < queue.len()
        invariant
            head <= queue@.len(),
            queue@.len() > 0,
            text::views(queue@)[0] == model_name@,
            forall|i: int|
                0 <= i < queue@.len() ==> reached(
                    *config,
                    model_name@,
                    #[trigger] text::views(queue@)[i],
                ),
            forall|i: int|
                0 <= i < head ==> text::views(seen@).contains(#[trigger] text::views(queue@)[i]),
            forall|i: int|
                0 <= i < seen@.len() ==> !is_external(*config, #[trigger] text::views(seen@)[i]),
            forall|k: int, x: Seq<char>|
                0 <= k < seen@.len() && config.models.has_name(#[trigger] text::views(seen@)[k])
                    && #[trigger] fallbacks(*config, text::views(seen@)[k]).contains(x)
                    ==> text::views(queue@).contains(x),
        decreases models_left(*config, text::views(seen@)), queue@.len() - head,
    {
        let name = queue[head].clone();
        let ghost queued = text::views(queue@);
        let ghost visited = text::views(seen@);
        assert(queued[head as int] == name@);
        if text::listed(&seen, name.as_str()) {
            head = head + 1;
            continue ;
        }
        head = head + 1;
        match config.models.get(name.as_str()) {
            None => {
                proof {
                    lemma_visit(
                        *config,
                        visited,
                        name@,
                        config.models.entries@.len() as int,
                    );
                }
            },
            Some(model) => {
                match config.providers.get(model.provider.as_str()) {
                    Some(provider) => {
                        if provider.data_boundary == DataBoundary::External {
                            assert(is_external(*config, name@));
                            assert(reached(*config, model_name@, queued[head - 1]));
                            return true;
                        }
                    },
                    None => {},
                }
                let ghost more = text::views(model.fallback@);
                let mut k: usize = 0;
                assert(queued + more.take(0) =~= queued);
                while k < model.fallback.len()
                    invariant
                        k <= model.fallback@.len(),
                        more == text::views(model.fallback@),
                        text::views(queue@) == queued + more.take(k as int),
                    decreases model.fallback@.len() - k,
                {
                    text::add_text(&mut queue, model.fallback[k].clone());
                    assert(queued + more.take(k + 1) =~= (queued + more.take(k as int)).push(
                        more[k as int],
                    ));
                    k = k + 1;
                }
                assert(more.take(more.len() as int) =~= more);
                proof {
                    lemma_visit_known(*config, visited, name@);
                    assert(text::views(queue@).len() == queue@.len());
                    assert forall|i: int| 0 <= i < queue@.len() implies reached(
                        *config,
                        model_name@,
                        #[trigger] text::views(queue@)[i],
                    ) by {
                        if i < queued.len() {
                            assert(text::views(queue@)[i] == queued[i]);
                        } else {
                            let x = more[i - queued.len()];
                            assert(text::views(queue@)[i] == x);
                            assert(fallbacks(*config, name@).contains(x));
                            assert(reached(*config, model_name@, queued[head - 1]));
                            lemma_reach_next(*config, model_name@, name@, x);
                        }
                    }
                }
            },
        }
        let ghost now = text::views(queue@);
        let ghost added = name@;
        text::add_text(&mut seen, name);
        proof {
            let after = text::views(seen@);
            assert(after == visited.push(added));
            assert(after[visited.len() as int] == added);
            assert forall|i: int| 0 <= i < head implies after.contains(#[trigger] now[i]) by {
                if i < head - 1 {
                    assert(now[i] == queued[i]);
                    assert(visited.contains(queued[i]));
                    let k = choose|k: int| 0 <= k < visited.len() && visited[k] == queued[i];
                    assert(after[k] == now[i]);
                } else {
                    assert(now[i] == added);
                }
            }
            assert forall|k: int, x: Seq<char>|
                0 <= k < after.len() && config.models.has_name(#[trigger] after[k])
                    && #[trigger] fallbacks(*config, after[k]).contains(x) implies now.contains(
                x,
            ) by {
                if k < visited.len() {
                    assert(after[k] == visited[k]);
                    assert(fallbacks(*config, visited[k]).contains(x));
                    assert(queued.contains(x));
                    let j = choose|j: int| 0 <= j < queued.len() && queued[j] == x;
                    assert(now[j] == x);
                } else {
                    let more = fallbacks(*config, added);
                    let j = choose|j: int| 0 <= j < more.len() && more[j] == x;
                    assert(now[queued.len() + j] == x);
                }
            }
            assert forall|i: int| 0 <= i < after.len() implies !is_external(
                *config,
                #[trigger] after[i],
            ) by {
                if i < visited.len() {
                    assert(after[i] == visited[i]);
                }
            }
        }
    }
    proof {
        let visited = text::views(seen@);
        let queued = text::views(queue@);
        if reaches_external(*config, model_name@) {
            let to = choose|to: Seq<char>| #[trigger]
                reached(*config, model_name@, to) && is_external(*config, to);
            let path = choose|path: Seq<Seq<char>>| #[trigger]
                is_path(*config, path) && path[0] == model_name@ && path.last() == to;
            assert(visited.contains(queued[0]));
            assert forall|k: int, x: Seq<char>|
                0 <= k < visited.len() && config.models.has_name(#[trigger] visited[k])
                    && #[trigger] fallbacks(*config, visited[k]).contains(x) implies visited.contains(
            x) by {
                let j = choose|j: int| 0 <= j < queued.len() && queued[j] == x;
                assert(visited.contains(queued[j]));
            }
            lemma_path_stays(*config, path, visited, path.len() - 1);
            let k = choose|k: int| 0 <= k < visited.len() && visited[k] == to;
            assert(is_external(*config, visited[k]));
        }
    }
    false
}

} // verus!
