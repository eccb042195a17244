//! The sidebar views that plugins and the program itself contribute, in the
//! order in which the sidebar shows them.

use vstd::prelude::*;
use vstd::string::*;
use vstd::multiset::Multiset;
use vstd::utf8::is_ascii_chars;
use crate::plugin_api::SidebarViewContribution;
use crate::text::{
    all_decimal, append_decimal, decimal_digits, decimal_value, lemma_decimal_round_trip,
    lemma_text_order, str_eq, str_lt, text_lt,
};

verus! {

broadcast use vstd::seq_lib::group_to_multiset_ensures;

#[derive(Debug, Clone, PartialEq, Eq)]
pub struct RegistrySidebarItem {
    pub view_id: String,
    pub title: String,
    pub active: bool,
}

#[derive(Debug, Clone)]
pub struct ContributionRegistry {
    sidebar_views: Vec<SidebarViewContribution>,
    active_sidebar_view: Option<String>,
}

/// `a` is shown before `b`: lower order first, and by title within an order.
pub open spec fn view_before(a: SidebarViewContribution, b: SidebarViewContribution) -> bool {
    a.order < b.order || (a.order == b.order && text_lt(a.title@, b.title@))
}

/// No view is shown before one that precedes it in the list.
pub open spec fn views_in_order(views: Seq<SidebarViewContribution>) -> bool {
    forall|i: int, j: int|
        0 <= i < j < views.len() ==> !view_before(#[trigger] views[j], #[trigger] views[i])
}

/// The id of the built-in view of the workspace at `idx`.
pub open spec fn builtin_id(idx: nat) -> Seq<char> {
    "builtin.workspace."@ + decimal_digits(idx)
}

/// The built-in view of the workspace at `idx`: titled with its number
/// counted from one, ordered by its index.
pub open spec fn is_builtin_view(view: SidebarViewContribution, idx: nat) -> bool {
    &&& view.id@ == builtin_id(idx)
    &&& view.title@ == "Workspace "@ + decimal_digits(idx + 1)
    &&& view.icon is None
    &&& view.order == idx
}

/// The number that a text denotes as `usize`: one or more decimal digits
/// whose value fits.
pub open spec fn parsed_index(s: Seq<char>) -> Option<usize> {
    if s.len() > 0 && all_decimal(s) && decimal_value(s) <= usize::MAX {
        Some(decimal_value(s) as usize)
    } else {
        None
    }
}

/// The workspace index that the id of a built-in view names.
pub open spec fn builtin_index_of(id: Seq<char>) -> Option<usize> {
    let prefix = "builtin.workspace."@;
    if id.len() >= prefix.len() && id.subrange(0, prefix.len() as int) == prefix {
        parsed_index(id.subrange(prefix.len() as int, id.len() as int))
    } else {
        None
    }
}

/// The sidebar items for the views, the one with the active id marked.
pub open spec fn items_match(
    items: Seq<RegistrySidebarItem>,
    views: Seq<SidebarViewContribution>,
    active: Option<Seq<char>>,
) -> bool {
    &&& items.len() == views.len()
    &&& forall|i: int|
        0 <= i < items.len() ==> (#[trigger] items[i]).view_id@ == views[i].id@ && items[i].title@
            == views[i].title@ && items[i].active == (active == Some(views[i].id@))
}

fn shown_before(a: &SidebarViewContribution, b: &SidebarViewContribution) -> (r: bool)
    ensures
        r == view_before(*a, *b),
{
    a.order < b.order || (a.order == b.order && str_lt(a.title.as_str(), b.title.as_str()))
}

proof fn lemma_view_before_order(
    a: SidebarViewContribution,
    b: SidebarViewContribution,
    c: SidebarViewContribution,
)
    ensures
        !view_before(a, a),
        view_before(a, b) && view_before(b, c) ==> view_before(a, c),
{
    lemma_text_order(a.title@, b.title@, c.title@);
}

/// Two views have the same place in the order: the same order number and
/// the same title.
pub open spec fn same_rank(a: SidebarViewContribution, b: SidebarViewContribution) -> bool {
    !view_before(a, b) && !view_before(b, a)
}

/// The views with the same place in the order as `v`, in their order.
pub open spec fn peers(views: Seq<SidebarViewContribution>, v: SidebarViewContribution) -> Seq<
    SidebarViewContribution,
>
    decreases views.len(),
{
    if views.len() == 0 {
        Seq::empty()
    } else if same_rank(views.last(), v) {
        peers(views.drop_last(), v).push(views.last())
    } else {
        peers(views.drop_last(), v)
    }
}

proof fn lemma_same_rank(a: SidebarViewContribution, b: SidebarViewContribution)
    ensures
        same_rank(a, b) <==> a.order == b.order && a.title@ == b.title@,
{
    lemma_text_order(a.title@, b.title@, a.title@);
}

proof fn lemma_peers_concat(
    a: Seq<SidebarViewContribution>,
    b: Seq<SidebarViewContribution>,
    v: SidebarViewContribution,
)
    ensures
        peers(a + b, v) == peers(a, v) + peers(b, v),
    decreases b.len(),
{
    if b.len() == 0 {
        assert(a + b =~= a);
        assert(peers(a, v) + peers(b, v) =~= peers(a, v));
    } else {
        assert((a + b).drop_last() =~= a + b.drop_last());
        assert((a + b).last() == b.last());
        lemma_peers_concat(a, b.drop_last(), v);
        if same_rank(b.last(), v) {
            assert(peers(a + b, v) =~= peers(a, v) + peers(b, v));
        }
    }
}

proof fn lemma_no_peers(views: Seq<SidebarViewContribution>, v: SidebarViewContribution)
    requires
        forall|i: int| 0 <= i < views.len() ==> !same_rank(#[trigger] views[i], v),
    ensures
        peers(views, v) == Seq::<SidebarViewContribution>::empty(),
    decreases views.len(),
{
    if views.len() > 0 {
        let head = views.drop_last();
        assert forall|i: int| 0 <= i < head.len() implies !same_rank(#[trigger] head[i], v) by {
            assert(head[i] == views[i]);
        }
        lemma_no_peers(head, v);
        assert(!same_rank(views[views.len() - 1], v));
    }
}

/// Sorts the views by order and title with an insertion sort that keeps
/// views of equal rank in their order.
fn sort_views(views: Vec<SidebarViewContribution>) -> (sorted: Vec<SidebarViewContribution>)
    ensures
        views_in_order(sorted@),
        sorted@.to_multiset() == views@.to_multiset(),
        views_in_order(views@) ==> sorted@ == views@,
        forall|v: SidebarViewContribution| #[trigger] peers(sorted@, v) == peers(views@, v),
{
    let mut sorted: Vec<SidebarViewContribution> = Vec::new();
    let mut rest = views;
    let ghost mut done: int = 0;
    assert(views@.take(0) =~= sorted@);
    assert(views@.skip(0) =~= rest@);
    while rest.len() > 0
        invariant
            0 <= done <= views@.len(),
            rest@ == views@.skip(done),
            views_in_order(sorted@),
            sorted@.to_multiset().add(rest@.to_multiset()) == views@.to_multiset(),
            views_in_order(views@) ==> sorted@ == views@.take(done),
            forall|v: SidebarViewContribution|
                #[trigger] peers(sorted@, v) == peers(views@.take(done), v),
        decreases rest@.len(),
    {
        let ghost rest_before = rest@;
        let ghost sorted_before = sorted@;
        let v = rest.remove(0);
        assert(rest@ =~= views@.skip(done + 1));
        assert(v == views@[done]);
        let mut pos: usize = 0;
        while pos < sorted.len() && !shown_before(&v, &sorted[pos])
            invariant
                pos <= sorted@.len(),
                forall|k: int| 0 <= k < pos ==> !view_before(v, #[trigger] sorted@[k]),
            decreases sorted@.len() - pos,
        {
            pos += 1;
        }
        proof {
            if views_in_order(views@) && pos < sorted@.len() {
                assert(sorted@[pos as int] == views@[pos as int]);
                assert(!view_before(views@[done], views@[pos as int]));
            }
        }
        sorted.insert(pos, v);
        proof {
            let s = sorted@;
            assert forall|i: int, j: int| 0 <= i < j < s.len() implies !view_before(
                #[trigger] s[j],
                #[trigger] s[i],
            ) by {
                if j == pos {
                    assert(s[i] == sorted_before[i]);
                } else if i == pos {
                    assert(s[j] == sorted_before[j - 1]);
                    if view_before(s[j], v) {
                        lemma_view_before_order(s[j], v, sorted_before[pos as int]);
                        lemma_view_before_order(s[j], s[j], s[j]);
                        if j - 1 > pos {
                            assert(!view_before(sorted_before[j - 1], sorted_before[pos as int]));
                        }
                    }
                } else {
                    let i0 = if i < pos { i } else { i - 1 };
                    let j0 = if j < pos { j } else { j - 1 };
                    assert(!view_before(sorted_before[j0], sorted_before[i0]));
                }
            }
            assert(rest_before.to_multiset() =~= rest@.to_multiset().insert(v)) by {
                assert(rest@ =~= rest_before.remove(0));
                assert(rest_before[0] == v);
                assert(rest_before =~= rest@.insert(0, v));
            }
            assert(sorted@.to_multiset() =~= sorted_before.to_multiset().insert(v));
            assert(sorted@.to_multiset().add(rest@.to_multiset()) =~= sorted_before.to_multiset().add(
                rest_before.to_multiset(),
            ));
            if views_in_order(views@) {
                assert(sorted@ =~= views@.take(done + 1));
            }
            assert forall|w: SidebarViewContribution| #[trigger] peers(sorted@, w) == peers(
                views@.take(done + 1),
                w,
            ) by {
                let head = sorted_before.take(pos as int);
                let tail = sorted_before.skip(pos as int);
                let one = seq![v];
                assert(sorted@ =~= (head + one) + tail);
                assert(sorted_before =~= head + tail);
                assert(views@.take(done + 1) =~= views@.take(done) + one);
                lemma_peers_concat(head + one, tail, w);
                lemma_peers_concat(head, one, w);
                lemma_peers_concat(head, tail, w);
                lemma_peers_concat(views@.take(done), one, w);
                assert(peers(sorted_before, w) == peers(views@.take(done), w));
                assert(one.drop_last() =~= Seq::<SidebarViewContribution>::empty());
                assert(peers(one.drop_last(), w) =~= Seq::<SidebarViewContribution>::empty());
                if same_rank(v, w) {
                    assert forall|i: int| 0 <= i < tail.len() implies !same_rank(
                        #[trigger] tail[i],
                        w,
                    ) by {
                        let t = tail[i];
                        assert(t == sorted_before[pos + i]);
                        let first = sorted_before[pos as int];
                        assert(view_before(v, first));
                        lemma_same_rank(v, w);
                        lemma_same_rank(t, w);
                        if same_rank(t, w) {
                            assert(view_before(t, first));
                            lemma_view_before_order(first, first, first);
                            if i > 0 {
                                assert(!view_before(sorted_before[pos + i], sorted_before[pos as int]));
                            }
                        }
                    }
                    lemma_no_peers(tail, w);
                    assert(peers(sorted@, w) =~= peers(head, w) + peers(one, w));
                    assert(peers(sorted_before, w) =~= peers(head, w));
                } else {
                    assert(peers(one, w) =~= Seq::<SidebarViewContribution>::empty());
                    assert(peers(sorted@, w) =~= peers(head, w) + peers(tail, w));
                }
            }
            done = done + 1;
        }
    }
    assert(rest@.to_multiset() =~= Multiset::empty());
    assert(sorted@.to_multiset().add(Multiset::empty()) =~= sorted@.to_multiset());
    assert(views@.take(done) =~= views@);
    sorted
}

fn parse_index(bytes: &[u8], from: usize) -> (r: Option<usize>)
    requires
        from <= bytes@.len(),
    ensures
        r == parsed_index(Seq::new((bytes@.len() - from) as nat, |i: int| bytes@[from + i] as char)),
{
    let ghost s = Seq::new((bytes@.len() - from) as nat, |i: int| bytes@[from + i] as char);
    let n = bytes.len();
    let start: usize = from;
    let ghost digits = s;
    assert(digits.len() == n - start);
    assert(forall|i: int| 0 <= i < digits.len() ==> digits[i] == bytes@[start + i] as char);
    if start == n {
        return None;
    }
    let mut value: usize = 0;
    let mut i: usize = start;
    while i < n
        invariant
            start <= i <= n,
            start < n,
            from <= n,
            n == bytes@.len(),
            s == Seq::new((bytes@.len() - from) as nat, |i: int| bytes@[from + i] as char),
            digits == s,
            digits.len() == n - start,
            forall|k: int| 0 <= k < digits.len() ==> digits[k] == bytes@[start + k] as char,
            all_decimal(digits.take(i - start)),
            value == decimal_value(digits.take(i - start)),
        decreases n - i,
    {
        let b = bytes[i];
        let ghost head = digits.take(i - start);
        let ghost next = digits.take(i + 1 - start);
        assert(next.drop_last() =~= head);
        assert(next.last() == b as char);
        assert((b as char) as nat == b as nat);
        assert('0' as nat == 48 && '9' as nat == 57);
        if b < 48 || b > 57 {
            proof {
                assert(digits[i - start] == b as char);
                assert(!('0' <= digits[i - start] <= '9'));
                assert(!all_decimal(digits));
            }
            return None;
        }
        let d: usize = (b - 48) as usize;
        assert(decimal_value(next) == value * 10 + d);
        if value > (usize::MAX - d) / 10 {
            proof {
                assert(decimal_value(next) > usize::MAX);
                lemma_decimal_value_grows(digits, i + 1 - start);
            }
            return None;
        }
        assert(all_decimal(next)) by {
            assert forall|k: int| 0 <= k < next.len() implies '0' <= #[trigger] next[k] <= '9' by {
                if k < head.len() {
                    assert(next[k] == head[k]);
                }
            }
        }
        value = value * 10 + d;
        i += 1;
    }
    assert(digits.take(n - start) =~= digits);
    Some(value)
}

/// The value of a sequence of digits is at least that of each of its
/// prefixes.
proof fn lemma_decimal_value_grows(s: Seq<char>, k: int)
    requires
        0 <= k <= s.len(),
    ensures
        decimal_value(s.take(k)) <= decimal_value(s),
    decreases s.len() - k,
{
    if k < s.len() {
        lemma_decimal_value_grows(s, k + 1);
        assert(s.take(k + 1).drop_last() =~= s.take(k));
    } else {
        assert(s.take(k) =~= s);
    }
}

impl ContributionRegistry {
    /// The views in the order of the sidebar.
    pub closed spec fn views(&self) -> Seq<SidebarViewContribution> {
        self.sidebar_views@
    }

    /// The id of the active view, if one was chosen.
    pub closed spec fn active_id(&self) -> Option<Seq<char>> {
        match self.active_sidebar_view {
            Some(id) => Some(id@),
            None => None,
        }
    }

    /// A registry without views.
    pub fn new() -> (r: Self)
        ensures
            r.views().len() == 0,
            r.active_id() is None,
    {
        ContributionRegistry { sidebar_views: Vec::new(), active_sidebar_view: None }
    }

    /// Takes the given views in place of the present ones, sorted by order
    /// and then by title. Views of the same order and title keep the order
    /// in which they are given, and views that are given in order stay as
    /// they are.
    pub fn replace_sidebar_views(&mut self, views: Vec<SidebarViewContribution>)
        ensures
            views_in_order(final(self).views()),
            final(self).views().to_multiset() == views@.to_multiset(),
            views_in_order(views@) ==> final(self).views() == views@,
            forall|v: SidebarViewContribution|
                #[trigger] peers(final(self).views(), v) == peers(views@, v),
            final(self).active_id() == old(self).active_id(),
    {
        self.sidebar_views = sort_views(views);
    }

    pub fn set_active_sidebar(&mut self, view_id: &str)
        ensures
            final(self).active_id() == Some(view_id@),
            final(self).views() == old(self).views(),
    {
        self.active_sidebar_view = Some(String::from_str(view_id));
    }

    /// One item for each view, in order; the view with the active id is
    /// marked.
    pub fn sidebar_items(&self) -> (items: Vec<RegistrySidebarItem>)
        ensures
            items_match(items@, self.views(), self.active_id()),
    {
        let mut items: Vec<RegistrySidebarItem> = Vec::new();
        let mut i: usize = 0;
        while i < self.sidebar_views.len()
            invariant
                i <= self.sidebar_views@.len(),
                items_match(items@, self.sidebar_views@.take(i as int), self.active_id()),
            decreases self.sidebar_views@.len() - i,
        {
            let view = &self.sidebar_views[i];
            let active = match &self.active_sidebar_view {
                Some(id) => str_eq(id.as_str(), view.id.as_str()),
                None => false,
            };
            items.push(
                RegistrySidebarItem { view_id: view.id.clone(), title: view.title.clone(), active },
            );
            i += 1;
        }
        assert(self.sidebar_views@.take(i as int) =~= self.sidebar_views@);
        items
    }

    /// The id of the view at `idx`, if there is one.
    pub fn sidebar_id_at(&self, idx: usize) -> (id: Option<&str>)
        ensures
            match id {
                Some(id) => idx < self.views().len() && id@ == self.views()[idx as int].id@,
                None => idx >= self.views().len(),
            },
    {
        if idx < self.sidebar_views.len() {
            Some(self.sidebar_views[idx].id.as_str())
        } else {
            None
        }
    }

    /// Fills the sidebar with one built-in view for each workspace, in the
    /// order of the workspaces, and makes the view of `active_idx` the active
    /// one.
    pub fn set_builtin_workspace_sidebar(&mut self, workspace_count: usize, active_idx: usize)
        requires
            workspace_count <= i32::MAX,
        ensures
            final(self).views().len() == workspace_count,
            forall|i: int|
                0 <= i < workspace_count ==> is_builtin_view(
                    #[trigger] final(self).views()[i],
                    i as nat,
                ),
            final(self).active_id() == Some(builtin_id(active_idx as nat)),
    {
        let mut views: Vec<SidebarViewContribution> = Vec::new();
        let mut idx: usize = 0;
        while idx < workspace_count
            invariant
                idx <= workspace_count,
                workspace_count <= i32::MAX,
                views@.len() == idx,
                forall|i: int| 0 <= i < idx ==> is_builtin_view(#[trigger] views@[i], i as nat),
            decreases workspace_count - idx,
        {
            let mut id = String::from_str("builtin.workspace.");
            append_decimal(&mut id, idx as u64);
            let mut title = String::from_str("Workspace ");
            append_decimal(&mut title, (idx + 1) as u64);
            views.push(SidebarViewContribution { id, title, icon: None, order: idx as i32 });
            idx += 1;
        }
        assert(views_in_order(views@)) by {
            assert forall|i: int, j: int| 0 <= i < j < views@.len() implies !view_before(
                #[trigger] views@[j],
                #[trigger] views@[i],
            ) by {
                assert(is_builtin_view(views@[i], i as nat));
                assert(is_builtin_view(views@[j], j as nat));
            }
        }
        self.replace_sidebar_views(views);
        let mut active = String::from_str("builtin.workspace.");
        append_decimal(&mut active, active_idx as u64);
        self.set_active_sidebar(active.as_str());
    }

    /// The workspace index that the id of a built-in view names: the number
    /// after `builtin.workspace.`.
    pub fn builtin_workspace_index(view_id: &str) -> (r: Option<usize>)
        ensures
            r == builtin_index_of(view_id@),
    {
        broadcast use vstd::string::is_ascii_spec_bytes;

        proof {
            reveal_strlit("builtin.workspace.");
        }
        let ghost prefix = "builtin.workspace."@;
        if !view_id.is_ascii() {
            proof {
                lemma_non_ascii_no_index(view_id@);
            }
            return None;
        }
        let bytes = view_id.as_bytes();
        assert(vstd::string::is_ascii(view_id));
        assert(bytes@ =~= Seq::new(view_id@.len(), |i: int| view_id@[i] as u8));
        let p: [u8; 18] = [
            98,
            117,
            105,
            108,
            116,
            105,
            110,
            46,
            119,
            111,
            114,
            107,
            115,
            112,
            97,
            99,
            101,
            46,
        ];
        assert(forall|k: int| 0 <= k < 18 ==> prefix[k] as u8 == #[trigger] p@[k]);
        if bytes.len() < 18 {
            return None;
        }
        let mut i: usize = 0;
        while i < 18
            invariant
                i <= 18,
                18 <= bytes@.len(),
                bytes@.len() == view_id@.len(),
                prefix == "builtin.workspace."@,
                prefix.len() == 18,
                forall|k: int| 0 <= k < bytes@.len() ==> view_id@[k] as u8 == #[trigger] bytes@[k],
                forall|k: int| 0 <= k < 18 ==> prefix[k] as u8 == #[trigger] p@[k],
                forall|k: int| 0 <= k < i ==> bytes@[k] == p@[k],
            decreases 18 - i,
        {
            if bytes[i] != p[i] {
                proof {
                    assert(view_id@.subrange(0, 18)[i as int] == view_id@[i as int]);
                    assert(view_id@[i as int] as u8 == bytes@[i as int]);
                    assert(prefix[i as int] as u8 == p@[i as int]);
                }
                return None;
            }
            i += 1;
        }
        proof {
            assert(view_id@.subrange(0, 18) =~= prefix) by {
                assert forall|k: int| 0 <= k < 18 implies view_id@[k] == prefix[k] by {
                    assert(view_id@[k] as u8 == bytes@[k]);
                    assert(prefix[k] as u8 == p@[k]);
                    assert(bytes@[k] == p@[k]);
                    assert('\0' <= view_id@[k] <= '\u{7f}');
                }
            }
            assert(view_id@.subrange(18, view_id@.len() as int) =~= Seq::new(
                (bytes@.len() - 18) as nat,
                |i: int| bytes@[18 + i] as char,
            )) by {
                assert forall|k: int| 18 <= k < view_id@.len() implies view_id@[k] == bytes@[k] as char by {
                    assert(view_id@[k] as u8 == bytes@[k]);
                    assert('\0' <= view_id@[k] <= '\u{7f}');
                }
            }
        }
        parse_index(bytes, 18)
    }
}

/// A text with a character outside ASCII names no workspace index.
proof fn lemma_non_ascii_no_index(id: Seq<char>)
    requires
        !is_ascii_chars(id),
    ensures
        builtin_index_of(id) is None,
{
    reveal_strlit("builtin.workspace.");
    let prefix = "builtin.workspace."@;
    let k = choose|k: int| 0 <= k < id.len() && !('\0' <= #[trigger] id[k] <= '\u{7f}');
    if id.len() >= prefix.len() && id.subrange(0, prefix.len() as int) == prefix {
        if k < 18 {
            assert(id.subrange(0, 18)[k] == id[k]);
        } else {
            let rest = id.subrange(18, id.len() as int);
            assert(rest[k - 18] == id[k]);
        }
    }
}

/// The id of the built-in view of a workspace names that workspace.
pub proof fn lemma_builtin_index_round_trip(idx: usize)
    ensures
        builtin_index_of(builtin_id(idx as nat)) == Some(idx),
{
    reveal_strlit("builtin.workspace.");
    let prefix = "builtin.workspace."@;
    let d = decimal_digits(idx as nat);
    let id = builtin_id(idx as nat);
    lemma_decimal_round_trip(idx as nat);
    assert(id.subrange(0, 18) =~= prefix);
    assert(id.subrange(18, id.len() as int) =~= d);
}

} // verus!
