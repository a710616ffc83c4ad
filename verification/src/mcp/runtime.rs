//! What the tools for the runtime ask for.

use vstd::prelude::*;

use crate::semantic::lru_sweep::IngredientMemory;
use crate::semantic::service::{ProjectContext, SemanticService};

verus! {

/// What is cleared.
#[derive(Debug, Clone, Copy, PartialEq, Eq, Structural)]
pub enum RuntimeClearScope {
    /// Everything.
    All,
    /// What is held for one workspace.
    Workspace,
    /// The analyses.
    SemanticOnly,
    /// The caches of search.
    SearchCacheOnly,
    /// Which projects are kept up to date.
    SyncTrackingOnly,
}

impl Default for RuntimeClearScope {
    fn default() -> (s: Self)
        ensures
            s == RuntimeClearScope::All,
    {
        RuntimeClearScope::All
    }
}

/// A request to clear.
#[derive(Debug)]
pub struct RuntimeClearRequest {
    /// What is cleared.
    pub scope: RuntimeClearScope,
    /// Of which workspace.
    pub workspace: Option<String>,
}

/// The request for these parameters. For one workspace it has to be named.
pub fn clear_runtime(scope: Option<RuntimeClearScope>, workspace: Option<String>) -> (r: Result<
    RuntimeClearRequest,
    String,
>)
    ensures
        ({
            let wanted = match scope {
                Some(s) => s,
                None => RuntimeClearScope::All,
            };
            if wanted == RuntimeClearScope::Workspace && workspace is None {
                r matches Err(e) && e@ == "workspace is required when scope is 'workspace'"@
            } else {
                r matches Ok(q) && q.scope == wanted && q.workspace == workspace
            }
        }),
{
    let scope = match scope {
        Some(s) => s,
        None => RuntimeClearScope::default(),
    };
    if scope == RuntimeClearScope::Workspace && workspace.is_none() {
        return Err("workspace is required when scope is 'workspace'".to_owned());
    }
    Ok(RuntimeClearRequest { scope, workspace })
}

/// How many ingredients are listed where nothing else is asked for.
pub const DEFAULT_TOP: usize = 25;

/// The analysis whose memory is asked for, and how many ingredients of it are
/// listed; zero lists all. An analysis that is not loaded is not loaded for the
/// question: what it held then would not be what the server holds.
pub fn analysis_memory<'a, C>(
    service: &'a SemanticService<C>,
    directory: &str,
    top: Option<usize>,
) -> (r: Result<(&'a ProjectContext<C>, usize), String>)
    requires
        service.wf(),
    ensures
        match r {
            Ok((project, n)) => {
                &&& service@.projects.dom().contains(directory@)
                &&& *project == service@.projects[directory@]
                &&& n == (match top {
                    Some(t) => t,
                    None => DEFAULT_TOP,
                })
            },
            Err(e) => !service@.projects.dom().contains(directory@) && e@ == "no analysis is loaded for "@
                + directory@,
        },
{
    let n: usize = match top {
        Some(t) => t,
        None => DEFAULT_TOP,
    };
    match service.get(directory) {
        Some(project) => Ok((project, n)),
        None => {
            let mut e = "no analysis is loaded for ".to_owned();
            e.append(directory);
            Err(e)
        },
    }
}

/// The row at `a` is listed before the one at `b`: it holds more bytes, or as many with
/// more entries; of two that weigh the same the first one is.
pub open spec fn weighs_more(rows: Seq<IngredientMemory>, a: usize, b: usize) -> bool {
    let x = rows[a as int];
    let y = rows[b as int];
    ||| x.bytes > y.bytes
    ||| x.bytes == y.bytes && (x.count > y.count || (x.count == y.count && a < b))
}

/// `order` are the positions below `n` in the order in which the rows are listed.
pub open spec fn is_weight_order(order: Seq<usize>, rows: Seq<IngredientMemory>, n: nat) -> bool {
    &&& forall|k: int| 0 <= k < order.len() ==> (#[trigger] order[k]) < n
    &&& forall|p: usize| p < n ==> #[trigger] order.contains(p)
    &&& forall|j: int, k: int|
        0 <= j < k < order.len() ==> weighs_more(rows, #[trigger] order[j], #[trigger] order[k])
}

proof fn weight_order_grows(order: Seq<usize>, rows: Seq<IngredientMemory>, i: usize, at: int)
    requires
        is_weight_order(order, rows, i as nat),
        0 <= at <= order.len(),
        at > 0 ==> weighs_more(rows, order[at - 1], i),
        forall|k: int| at <= k < order.len() ==> weighs_more(rows, i, #[trigger] order[k]),
    ensures
        is_weight_order(order.insert(at, i), rows, (i + 1) as nat),
{
    let now = order.insert(at, i);
    assert forall|p: usize| p < i + 1 implies #[trigger] now.contains(p) by {
        if p < i {
            assert(order.contains(p));
            let k = order.index_of(p);
            if k < at {
                assert(now[k] == p);
            } else {
                assert(now[k + 1] == p);
            }
        } else {
            assert(now[at] == p);
        }
    }
    assert forall|j: int, k: int| 0 <= j < k < now.len() implies weighs_more(
        rows,
        #[trigger] now[j],
        #[trigger] now[k],
    ) by {
        if k == at {
            assert(now[j] == order[j]);
            if j < at - 1 {
                assert(weighs_more(rows, order[j], order[at - 1]));
            }
        } else if j == at {
            assert(now[k] == order[k - 1]);
        } else {
            let a = if j < at {
                j
            } else {
                j - 1
            };
            let b = if k < at {
                k
            } else {
                k - 1
            };
            assert(now[j] == order[a] && now[k] == order[b]);
        }
    }
}

/// Which rows of a breakdown are listed, by their positions: the heaviest first, and no
/// more than `top`; zero lists all.
pub fn heaviest(rows: &Vec<IngredientMemory>, top: usize) -> (listed: Vec<usize>)
    ensures
        exists|order: Seq<usize>| #[trigger]
            is_weight_order(order, rows@, rows@.len()) && listed@ == (if top == 0 || top
                >= order.len() {
                order
            } else {
                order.take(top as int)
            }),
        listed@.len() == (if top == 0 || top >= rows@.len() {
            rows@.len()
        } else {
            top as nat
        }),
{
    let mut order: Vec<usize> = Vec::new();
    let mut i: usize = 0;
    while i < rows.len()
        invariant
            i <= rows@.len(),
            order@.len() == i,
            is_weight_order(order@, rows@, i as nat),
        decreases rows@.len() - i,
    {
        let mut at: usize = order.len();
        while at > 0 && (rows[order[at - 1]].bytes < rows[i].bytes || (rows[order[at - 1]].bytes
            == rows[i].bytes && rows[order[at - 1]].count < rows[i].count))
            invariant
                at <= order@.len(),
                i < rows@.len(),
                is_weight_order(order@, rows@, i as nat),
                forall|k: int|
                    at <= k < order@.len() ==> weighs_more(rows@, i, #[trigger] order@[k]),
            decreases at,
        {
            at -= 1;
        }
        proof {
            weight_order_grows(order@, rows@, i, at as int);
        }
        order.insert(at, i);
        i += 1;
    }
    let ghost all = order@;
    if top > 0 && top < order.len() {
        order.truncate(top);
        assert(order@ =~= all.take(top as int));
    }
    assert(is_weight_order(all, rows@, rows@.len()));
    order
}

/// What is cleared is what was asked for, and everything where nothing was asked for.
/// One thing is refused: to clear a workspace that is not named.
pub proof fn a_workspace_to_clear_is_named(
    scope: Option<RuntimeClearScope>,
    workspace: Option<String>,
    r: Result<RuntimeClearRequest, String>,
)
    requires
        call_ensures(clear_runtime, (scope, workspace), r),
    ensures
        r is Err <==> (scope == Some(RuntimeClearScope::Workspace) && workspace is None),
        r is Ok ==> r->Ok_0.workspace == workspace,
        r is Ok && scope is Some ==> r->Ok_0.scope == scope->Some_0,
        r is Ok && scope is None ==> r->Ok_0.scope == RuntimeClearScope::All,
{
}

/// The rows that are listed are as heavy as those that are not, at least; they are listed
/// with the heaviest first. Of rows of the same size the one with more entries comes first,
/// and of those that have as many the one that stood first.
pub proof fn no_heavier_row_is_left_out(
    rows: Vec<IngredientMemory>,
    top: usize,
    listed: Vec<usize>,
    k: int,
    p: usize,
)
    requires
        call_ensures(heaviest, (&rows, top), listed),
        0 <= k < listed@.len(),
        p < rows@.len(),
        forall|j: int| 0 <= j <= k ==> #[trigger] listed@[j] != p,
    ensures
        listed@[k] < rows@.len(),
        rows@[listed@[k] as int].bytes >= rows@[p as int].bytes,
        rows@[listed@[k] as int].bytes == rows@[p as int].bytes ==> rows@[listed@[k] as int].count
            >= rows@[p as int].count,
        rows@[listed@[k] as int].bytes == rows@[p as int].bytes && rows@[listed@[k] as int].count
            == rows@[p as int].count ==> listed@[k] < p,
{
    let order = choose|order: Seq<usize>| #[trigger]
        is_weight_order(order, rows@, rows@.len()) && listed@ == (if top == 0 || top
            >= order.len() {
            order
        } else {
            order.take(top as int)
        });
    assert(order.contains(p));
    let at = order.index_of(p);
    assert(listed@[k] == order[k]);
    if at <= k {
        assert(listed@[at] == order[at]);
    }
    assert(weighs_more(rows@, order[k], order[at]));
}

/// The memory of an analysis is told where it is loaded, and nothing is loaded for the
/// question. As many rows are listed as are asked for, and else twenty-five.
pub proof fn only_a_loaded_analysis_is_weighed<'a, C>(
    service: &'a SemanticService<C>,
    directory: &str,
    top: Option<usize>,
    r: Result<(&'a ProjectContext<C>, usize), String>,
)
    requires
        service.wf(),
        call_ensures(analysis_memory::<C>, (service, directory, top), r),
    ensures
        r is Ok <==> service@.projects.dom().contains(directory@),
        r is Ok ==> *r->Ok_0.0 == service@.projects[directory@],
        r is Ok && top is Some ==> r->Ok_0.1 == top->Some_0,
        r is Ok && top is None ==> r->Ok_0.1 == 25,
{
}

} // verus!
