use vstd::prelude::*;

use crate::status::ContainerStatus;
use crate::text::chars_of;

verus! {

broadcast use vstd::string::group_string_axioms;

/// The description of a group of containers.
#[derive(Clone, Copy, Debug, PartialEq, Eq, Structural)]
pub enum GroupDescription {
    /// The group's own text for an empty list.
    NoContainers,
    OneRunning,
    OneStopped,
    /// The number of containers and how many of them run.
    Total { len: u32, running: u32 },
}

/// Describes a group: its empty-list text, a sentence for a single
/// container, or the total and the number running.
pub fn group_description(len: u32, running: u32) -> (description: GroupDescription)
    ensures
        description == (if len == 0 {
            GroupDescription::NoContainers
        } else if len == 1 {
            if running == 1 {
                GroupDescription::OneRunning
            } else {
                GroupDescription::OneStopped
            }
        } else {
            GroupDescription::Total { len, running }
        }),
{
    if len == 0 {
        GroupDescription::NoContainers
    } else if len == 1 {
        if running == 1 {
            GroupDescription::OneRunning
        } else {
            GroupDescription::OneStopped
        }
    } else {
        GroupDescription::Total { len, running }
    }
}

/// The description of the older group view: the total and the number
/// running, or its empty-list text (`None`) when the list is empty.
pub fn group_totals(len: u32, running: u32) -> (totals: Option<(u32, u32)>)
    ensures
        totals == (if len > 0 { Some((len, running)) } else { None::<(u32, u32)> }),
{
    if len > 0 {
        Some((len, running))
    } else {
        None
    }
}

/// Whether a container is listed: all are, unless only running ones are
/// asked for.
pub open spec fn spec_listed(show_only_running: bool, status: ContainerStatus) -> bool {
    !show_only_running || status == ContainerStatus::Running
}

pub fn listed(show_only_running: bool, status: ContainerStatus) -> (shown: bool)
    ensures
        shown == spec_listed(show_only_running, status),
{
    !show_only_running || status == ContainerStatus::Running
}

/// The positions of the listed containers, in order.
pub fn listed_positions(show_only_running: bool, statuses: &Vec<ContainerStatus>) -> (positions: Vec<usize>)
    ensures
        forall|i: int| 0 <= i < positions@.len() ==> #[trigger] positions@[i] < statuses@.len()
            && spec_listed(show_only_running, statuses@[positions@[i] as int]),
        forall|i: int, j: int| 0 <= i < j < positions@.len() ==> positions@[i] < positions@[j],
        forall|k: int| 0 <= k < statuses@.len() && spec_listed(show_only_running, #[trigger] statuses@[k]) ==> positions@.contains(k as usize),
{
    let mut positions: Vec<usize> = Vec::new();
    let mut k: usize = 0;
    while k < statuses.len()
        invariant
            k <= statuses@.len(),
            forall|i: int| 0 <= i < positions@.len() ==> #[trigger] positions@[i] < k
                && spec_listed(show_only_running, statuses@[positions@[i] as int]),
            forall|i: int, j: int| 0 <= i < j < positions@.len() ==> positions@[i] < positions@[j],
            forall|m: int| 0 <= m < k && spec_listed(show_only_running, #[trigger] statuses@[m]) ==> positions@.contains(m as usize),
        decreases statuses@.len() - k,
    {
        if listed(show_only_running, statuses[k]) {
            let ghost before = positions@;
            positions.push(k);
            assert forall|m: int| 0 <= m < k + 1 && spec_listed(show_only_running, #[trigger] statuses@[m]) implies positions@.contains(m as usize) by {
                if m < k {
                    let w = choose|w: int| 0 <= w < before.len() && before[w] == m as usize;
                    assert(positions@[w] == m as usize);
                } else {
                    assert(positions@[before.len() as int] == k);
                }
            }
        }
        k = k + 1;
    }
    positions
}

/// The page shown by the container panel.
#[derive(Clone, Copy, Debug, PartialEq, Eq, Structural)]
pub enum PanelPage {
    Empty,
    Spinner,
    Containers,
}

/// The panel shows its containers when there are some; with none, the empty
/// page once the list is known, a spinner while it is being fetched, and
/// nothing new before that.
pub fn panel_page(len: u32, listing: bool, initialized: bool) -> (page: Option<PanelPage>)
    ensures
        page == (if len == 0 {
            if initialized {
                Some(PanelPage::Empty)
            } else if listing {
                Some(PanelPage::Spinner)
            } else {
                None::<PanelPage>
            }
        } else {
            Some(PanelPage::Containers)
        }),
{
    if len == 0 {
        if initialized {
            Some(PanelPage::Empty)
        } else if listing {
            Some(PanelPage::Spinner)
        } else {
            None
        }
    } else {
        Some(PanelPage::Containers)
    }
}

/// The containers that neither run, nor are paused, nor are dead: created,
/// exited, being removed, stopped or stopping.
pub fn not_running_count(created: u32, exited: u32, removing: u32, stopped: u32, stopping: u32) -> (count: u32)
    requires
        created + exited + removing + stopped + stopping <= u32::MAX,
    ensures
        count == created + exited + removing + stopped + stopping,
{
    created + exited + removing + stopped + stopping
}

/// The not-running count of the older count bar: created, exited or being
/// removed.
pub fn not_running_count_short(created: u32, exited: u32, removing: u32) -> (count: u32)
    requires
        created + exited + removing <= u32::MAX,
    ensures
        count == created + exited + removing,
{
    created + exited + removing
}

/// A count shows in the count bar only when it is not zero.
pub fn count_visible(count: u32) -> (visible: bool)
    ensures
        visible <==> count != 0,
{
    count != 0
}

/// How two names compare.
#[derive(Clone, Copy, Debug, PartialEq, Eq, Structural)]
pub enum NameOrder {
    Before,
    Same,
    After,
}

/// The lexicographic order of strings by their characters (the order
/// in which `str` compares: UTF-8 byte order agrees with code point order).
pub open spec fn spec_name_order(a: Seq<char>, b: Seq<char>) -> NameOrder
    decreases a.len(),
{
    if a.len() == 0 {
        if b.len() == 0 {
            NameOrder::Same
        } else {
            NameOrder::Before
        }
    } else if b.len() == 0 {
        NameOrder::After
    } else if a[0] < b[0] {
        NameOrder::Before
    } else if a[0] > b[0] {
        NameOrder::After
    } else {
        spec_name_order(a.drop_first(), b.drop_first())
    }
}

proof fn lemma_name_order_skip(a: Seq<char>, b: Seq<char>, k: int)
    requires
        0 <= k <= a.len(),
        k <= b.len(),
        forall|i: int| 0 <= i < k ==> a[i] == b[i],
    ensures
        spec_name_order(a, b) == spec_name_order(a.skip(k), b.skip(k)),
    decreases k,
{
    if k > 0 {
        assert(a[0] == b[0]);
        let a1 = a.drop_first();
        let b1 = b.drop_first();
        lemma_name_order_skip(a1, b1, k - 1);
        assert(a1.skip(k - 1) =~= a.skip(k));
        assert(b1.skip(k - 1) =~= b.skip(k));
    } else {
        assert(a.skip(0) =~= a);
        assert(b.skip(0) =~= b);
    }
}

/// Compares two container names by their characters.
pub fn compare_names(a: &str, b: &str) -> (order: NameOrder)
    ensures
        order == spec_name_order(a@, b@),
{
    let x = chars_of(a);
    let y = chars_of(b);
    let mut k: usize = 0;
    while k < x.len() && k < y.len()
        invariant
            k <= x@.len(),
            k <= y@.len(),
            x@ == a@,
            y@ == b@,
            forall|i: int| 0 <= i < k ==> x@[i] == y@[i],
        decreases x@.len() - k,
    {
        let c = x[k];
        let d = y[k];
        if c < d || c > d {
            proof {
                lemma_name_order_skip(a@, b@, k as int);
                assert(a@.skip(k as int)[0] == c);
                assert(b@.skip(k as int)[0] == d);
            }
            if c < d {
                return NameOrder::Before;
            } else {
                return NameOrder::After;
            }
        }
        assert(c == d);
        k = k + 1;
    }
    proof {
        lemma_name_order_skip(a@, b@, k as int);
    }
    if k < x.len() {
        NameOrder::After
    } else if k < y.len() {
        NameOrder::Before
    } else {
        NameOrder::Same
    }
}

/// The name order is antisymmetric: swapping the names swaps the outcome.
pub proof fn lemma_name_order_antisymmetric(a: Seq<char>, b: Seq<char>)
    ensures
        spec_name_order(a, b) == NameOrder::Before <==> spec_name_order(b, a) == NameOrder::After,
        spec_name_order(a, b) == NameOrder::Same <==> a == b,
    decreases a.len(),
{
    if a.len() > 0 && b.len() > 0 && a[0] == b[0] {
        lemma_name_order_antisymmetric(a.drop_first(), b.drop_first());
        if a.drop_first() == b.drop_first() {
            assert(a =~= seq![a[0]] + a.drop_first());
            assert(b =~= seq![b[0]] + b.drop_first());
        }
        if a == b {
            assert(a.drop_first() =~= b.drop_first());
        }
    } else if a.len() == 0 && b.len() == 0 {
        assert(a =~= b);
    } else if a.len() > 0 && b.len() > 0 {
        assert(a[0] != b[0]);
        if a == b {
            assert(a[0] == b[0]);
        }
    }
}

/// The name order is transitive, so that sorting by it is well defined.
pub proof fn lemma_name_order_transitive(a: Seq<char>, b: Seq<char>, c: Seq<char>)
    requires
        spec_name_order(a, b) == NameOrder::Before,
        spec_name_order(b, c) == NameOrder::Before,
    ensures
        spec_name_order(a, c) == NameOrder::Before,
    decreases a.len(),
{
    if a.len() > 0 && b.len() > 0 && c.len() > 0 && a[0] == b[0] && b[0] == c[0] {
        lemma_name_order_transitive(a.drop_first(), b.drop_first(), c.drop_first());
    }
}

/// The Unicode lowercase mapping of a text.
pub uninterp spec fn lowercase(s: Seq<char>) -> Seq<char>;

/// Calls `str::to_lowercase`. The contract claims only that the result is
/// the text's lowercase mapping, a function of the text alone.
#[verifier::external_body]
fn to_lowercase(s: &str) -> (lower: String)
    ensures
        lower@ == lowercase(s@),
{
    s.to_lowercase()
}

/// Compares two container names by their lowercase forms, as the container
/// list sorts them.
pub fn compare_names_ignoring_case(a: &str, b: &str) -> (order: NameOrder)
    ensures
        order == spec_name_order(lowercase(a@), lowercase(b@)),
{
    let la = to_lowercase(a);
    let lb = to_lowercase(b);
    compare_names(la.as_str(), lb.as_str())
}

} // verus!
