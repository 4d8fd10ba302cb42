//! Explicit selection of the matrices an orthogonalized-momentum optimizer updates.
use crate::error::Error;
use crate::model::nn::ParamId;
use crate::text;
use vstd::prelude::*;
use vstd::string::StringExecFns;

verus! {

/// The storage orientation of one explicitly selected Muon matrix.
#[derive(Clone, Copy, Debug, PartialEq, Eq, Structural)]
pub enum MuonMatrixOrientation {
    /// Linear-layer storage of this library: `[fan_in, fan_out]`.
    FanInFanOut,
    /// Conventional PyTorch linear storage: `[fan_out, fan_in]`.
    FanOutFanIn,
}

/// A parameter selected for Muon together with its matrix orientation. Selection is
/// explicit: nothing is picked merely because it happens to have rank two.
#[derive(Clone, Copy, Debug)]
pub struct MuonMatrix {
    id: ParamId,
    orientation: MuonMatrixOrientation,
}

impl MuonMatrix {
    pub closed spec fn id_spec(&self) -> ParamId {
        self.id
    }

    pub closed spec fn orientation_spec(&self) -> MuonMatrixOrientation {
        self.orientation
    }

    /// Select a linear weight of this library, stored as `[fan_in, fan_out]`.
    pub fn axis_linear(id: ParamId) -> (m: Self)
        ensures
            m.id_spec() == id,
            m.orientation_spec() == MuonMatrixOrientation::FanInFanOut,
    {
        Self::fan_in_fan_out(id)
    }

    /// Select a matrix stored as `[fan_in, fan_out]`.
    pub fn fan_in_fan_out(id: ParamId) -> (m: Self)
        ensures
            m.id_spec() == id,
            m.orientation_spec() == MuonMatrixOrientation::FanInFanOut,
    {
        MuonMatrix { id, orientation: MuonMatrixOrientation::FanInFanOut }
    }

    /// Select a matrix stored as `[fan_out, fan_in]`.
    pub fn fan_out_fan_in(id: ParamId) -> (m: Self)
        ensures
            m.id_spec() == id,
            m.orientation_spec() == MuonMatrixOrientation::FanOutFanIn,
    {
        MuonMatrix { id, orientation: MuonMatrixOrientation::FanOutFanIn }
    }

    pub fn param_id(&self) -> (id: ParamId)
        ensures
            id == self.id_spec(),
    {
        self.id
    }

    pub fn orientation(&self) -> (o: MuonMatrixOrientation)
        ensures
            o == self.orientation_spec(),
    {
        self.orientation
    }
}

/// How a parameter identity prints: `ParamId(7)`.
pub open spec fn param_id_text(id: ParamId) -> Seq<char> {
    "ParamId("@ + text::decimal_text(id.raw_spec() as nat) + ")"@
}

/// The position in `s` of the selection of `id`, if any.
pub open spec fn selected_at(s: Seq<MuonMatrix>, id: ParamId) -> Option<int> {
    if exists|i: int| 0 <= i < s.len() && (#[trigger] s[i]).id_spec() == id {
        Some(choose|i: int| 0 <= i < s.len() && (#[trigger] s[i]).id_spec() == id)
    } else {
        None
    }
}

/// Folding selections into one orientation per identity, first-seen order; a repeated
/// identity must repeat its orientation.
pub open spec fn muon_collect(ms: Seq<MuonMatrix>) -> Result<Seq<MuonMatrix>, Seq<char>>
    decreases ms.len(),
{
    if ms.len() == 0 {
        Ok(Seq::empty())
    } else {
        match muon_collect(ms.drop_last()) {
            Err(m) => Err(m),
            Ok(s) => {
                let m = ms.last();
                match selected_at(s, m.id_spec()) {
                    Some(i) => if s[i].orientation_spec() != m.orientation_spec() {
                        Err(
                            "Muon parameter "@ + param_id_text(m.id_spec())
                                + " was selected with conflicting matrix orientations"@,
                        )
                    } else {
                        Ok(s)
                    },
                    None => Ok(s.push(m)),
                }
            },
        }
    }
}

/// The Muon selection of `ms`: [`muon_collect`], which must select something.
pub open spec fn muon_selection(ms: Seq<MuonMatrix>) -> Result<Seq<MuonMatrix>, Seq<char>> {
    match muon_collect(ms) {
        Err(m) => Err(m),
        Ok(s) => if s.len() == 0 {
            Err("Muon requires at least one explicit matrix selection"@)
        } else {
            Ok(s)
        },
    }
}

/// No identity is selected twice.
pub open spec fn distinct_selection(s: Seq<MuonMatrix>) -> bool {
    forall|i: int, j: int| 0 <= i < j < s.len() ==> s[i].id_spec() != s[j].id_spec()
}

proof fn lemma_collect_distinct(ms: Seq<MuonMatrix>)
    ensures
        muon_collect(ms) matches Ok(s) ==> distinct_selection(s),
    decreases ms.len(),
{
    if ms.len() > 0 {
        lemma_collect_distinct(ms.drop_last());
    }
}

proof fn lemma_collect_err_sticks(ms: Seq<MuonMatrix>, k: int)
    requires
        0 <= k <= ms.len(),
        muon_collect(ms.take(k)) is Err,
    ensures
        muon_collect(ms) == muon_collect(ms.take(k)),
    decreases ms.len() - k,
{
    if k < ms.len() {
        assert(ms.take(k + 1).drop_last() =~= ms.take(k));
        lemma_collect_err_sticks(ms, k + 1);
    } else {
        assert(ms.take(k) =~= ms);
    }
}

/// Where `id` is selected in `s`, if anywhere.
fn position_of(s: &Vec<MuonMatrix>, id: ParamId) -> (r: Option<usize>)
    ensures
        r matches Some(k) ==> k < s@.len() && s@[k as int].id_spec() == id,
        r is None ==> forall|k: int| 0 <= k < s@.len() ==> (#[trigger] s@[k]).id_spec() != id,
{
    let mut j: usize = 0;
    while j < s.len()
        invariant
            j <= s@.len(),
            forall|k: int| 0 <= k < j ==> (#[trigger] s@[k]).id_spec() != id,
        decreases s@.len() - j,
    {
        if s[j].id == id {
            return Some(j);
        }
        j = j + 1;
    }
    None
}

/// One orientation per selected parameter, in first-selected order. A parameter selected
/// twice must be selected with the same orientation, and something must be selected.
pub fn collect_muon_selection(selected: Vec<MuonMatrix>) -> (r: Result<Vec<MuonMatrix>, Error>)
    ensures
        muon_selection(selected@) matches Ok(s) ==> r is Ok && r->Ok_0@ == s,
        muon_selection(selected@) matches Err(m) ==> r is Err && r->Err_0@ == m,
        r matches Ok(s) ==> distinct_selection(s@),
{
    let n = selected.len();
    let mut selection: Vec<MuonMatrix> = Vec::new();
    let mut i: usize = 0;
    assert(selected@.take(0) =~= Seq::<MuonMatrix>::empty());
    while i < n
        invariant
            n == selected@.len(),
            i <= n,
            muon_collect(selected@.take(i as int)) == Ok::<Seq<MuonMatrix>, Seq<char>>(selection@),
        decreases n - i,
    {
        let ghost t = selected@.take(i as int + 1);
        assert(t.drop_last() =~= selected@.take(i as int));
        let m = selected[i];
        assert(t.last() == m);
        let found = position_of(&selection, m.id);
        match found {
            Some(k) => {
                proof {
                    lemma_collect_distinct(selected@.take(i as int));
                    let w = selected_at(selection@, m.id_spec());
                    assert(selection@[k as int].id_spec() == m.id_spec());
                    assert(w == Some(k as int));
                }
                if selection[k].orientation != m.orientation {
                    let mut message = String::from_str("Muon parameter ");
                    message.append("ParamId(");
                    text::push_decimal_u64(&mut message, m.id.raw());
                    message.append(")");
                    message.append(" was selected with conflicting matrix orientations");
                    assert(message@ =~= "Muon parameter "@ + param_id_text(m.id_spec())
                        + " was selected with conflicting matrix orientations"@);
                    proof {
                        lemma_collect_err_sticks(selected@, i as int + 1);
                    }
                    return Err(Error::new(message));
                }
            },
            None => {
                selection.push(m);
            },
        }
        i = i + 1;
    }
    assert(selected@.take(n as int) =~= selected@);
    proof {
        lemma_collect_distinct(selected@);
    }
    if selection.len() == 0 {
        return Err(
            Error::new(String::from_str("Muon requires at least one explicit matrix selection")),
        );
    }
    Ok(selection)
}

} // verus!

verus! {

/// The distinct identities of `ids`, in first-seen order.
pub open spec fn first_seen(ids: Seq<ParamId>) -> Seq<ParamId>
    decreases ids.len(),
{
    if ids.len() == 0 {
        Seq::empty()
    } else {
        let d = first_seen(ids.drop_last());
        if d.contains(ids.last()) {
            d
        } else {
            d.push(ids.last())
        }
    }
}

/// The selected model parameters with their orientations, in first-seen model order.
pub open spec fn selected_part(s: Seq<MuonMatrix>, ids: Seq<ParamId>) -> Seq<MuonMatrix>
    decreases ids.len(),
{
    if ids.len() == 0 {
        Seq::empty()
    } else {
        let rest = selected_part(s, ids.drop_last());
        let id = ids.last();
        if first_seen(ids.drop_last()).contains(id) {
            rest
        } else {
            match selected_at(s, id) {
                Some(k) => rest.push(s[k]),
                None => rest,
            }
        }
    }
}

/// The unselected model parameters, in first-seen model order.
pub open spec fn auxiliary_part(s: Seq<MuonMatrix>, ids: Seq<ParamId>) -> Seq<ParamId>
    decreases ids.len(),
{
    if ids.len() == 0 {
        Seq::empty()
    } else {
        let rest = auxiliary_part(s, ids.drop_last());
        let id = ids.last();
        if first_seen(ids.drop_last()).contains(id) {
            rest
        } else {
            match selected_at(s, id) {
                Some(_) => rest,
                None => rest.push(id),
            }
        }
    }
}

/// The selected identities the model does not have, in selection order.
pub open spec fn missing_ids(s: Seq<MuonMatrix>, ids: Seq<ParamId>) -> Seq<ParamId>
    decreases s.len(),
{
    if s.len() == 0 {
        Seq::empty()
    } else {
        let rest = missing_ids(s.drop_last(), ids);
        if ids.contains(s.last().id_spec()) {
            rest
        } else {
            rest.push(s.last().id_spec())
        }
    }
}

/// Identities ordered by how they print.
pub open spec fn text_sorted(t: Seq<ParamId>) -> bool {
    forall|i: int, j: int|
        0 <= i < j < t.len() ==> !text::text_lt(param_id_text(t[j]), param_id_text(t[i]))
}

/// `parts` joined by `", "`.
pub open spec fn joined(parts: Seq<ParamId>) -> Seq<char>
    decreases parts.len(),
{
    if parts.len() == 0 {
        Seq::empty()
    } else if parts.len() == 1 {
        param_id_text(parts[0])
    } else {
        joined(parts.drop_last()) + ", "@ + param_id_text(parts.last())
    }
}

/// The rejection of a selection that names identities the model lacks.
pub open spec fn foreign_selection_message(t: Seq<ParamId>) -> Seq<char> {
    "Muon selection contains "@ + text::decimal_text(t.len()) + " ParamId(s) that do not belong to this model: ["@
        + joined(t) + "]"@
}

/// How a parameter identity prints: `ParamId(7)`.
fn param_id_string(id: ParamId) -> (s: String)
    ensures
        s@ == param_id_text(id),
{
    let mut s = String::from_str("ParamId(");
    text::push_decimal_u64(&mut s, id.raw());
    s.append(")");
    s
}

/// `ids` in print order.
fn sort_by_text(ids: Vec<ParamId>) -> (r: Vec<ParamId>)
    ensures
        text_sorted(r@),
        r@.to_multiset() == ids@.to_multiset(),
{
    broadcast use vstd::seq_lib::group_to_multiset_ensures;

    let mut r: Vec<ParamId> = Vec::new();
    let n = ids.len();
    let mut i: usize = 0;
    assert(ids@.take(0) =~= r@);
    while i < n
        invariant
            n == ids@.len(),
            i <= n,
            text_sorted(r@),
            r@.to_multiset() == ids@.take(i as int).to_multiset(),
        decreases n - i,
    {
        let x = ids[i];
        let xs = param_id_string(x);
        let mut p: usize = 0;
        let mut scanning = true;
        while scanning && p < r.len()
            invariant
                p <= r@.len(),
                xs@ == param_id_text(x),
                forall|k: int| 0 <= k < p ==> !text::text_lt(xs@, param_id_text(#[trigger] r@[k])),
                !scanning ==> p < r@.len() && text::text_lt(xs@, param_id_text(r@[p as int])),
            decreases r@.len() - p + (if scanning { 1int } else { 0int }),
        {
            let rs = param_id_string(r[p]);
            if text::text_less(xs.as_str(), rs.as_str()) {
                scanning = false;
            } else {
                p = p + 1;
            }
        }
        let ghost before = r@;
        proof {
            assert forall|k: int| p <= k < before.len() implies text::text_lt(
                param_id_text(x),
                param_id_text(#[trigger] before[k]),
            ) by {
                let a = param_id_text(x);
                let b = param_id_text(before[p as int]);
                let c = param_id_text(before[k]);
                if k > p {
                    assert(!text::text_lt(c, b));
                    if b != c {
                        text::lemma_text_lt_total(b, c);
                        text::lemma_text_lt_transitive(a, b, c);
                    }
                }
            }
        }
        r.insert(p, x);
        proof {
            assert forall|a: int, b: int| 0 <= a < b < r@.len() implies !text::text_lt(
                param_id_text(r@[b]),
                param_id_text(r@[a]),
            ) by {
                if b == p {
                    assert(r@[a] == before[a]);
                } else if a == p {
                    assert(r@[b] == before[b - 1]);
                    text::lemma_text_lt_asymmetric(param_id_text(x), param_id_text(before[b - 1]));
                } else {
                    let a0 = if a < p { a } else { a - 1 };
                    let b0 = if b < p { b } else { b - 1 };
                    assert(r@[a] == before[a0] && r@[b] == before[b0]);
                }
            }
            assert(r@.remove(p as int) =~= before);
            vstd::seq_lib::to_multiset_remove(r@, p as int);
            assert(r@.contains(x)) by {
                assert(r@[p as int] == x);
            }
            assert(r@.to_multiset() =~= before.to_multiset().insert(x)) by {
                broadcast use vstd::multiset::group_multiset_axioms;

                r@.to_multiset_ensures();
                assert(r@.to_multiset().count(x) > 0);
            }
            assert(ids@.take(i as int + 1) =~= ids@.take(i as int).push(x));
            vstd::seq_lib::to_multiset_build(ids@.take(i as int), x);
        }
        i = i + 1;
    }
    assert(ids@.take(n as int) =~= ids@);
    r
}

/// With no identity selected twice, the selection of `s[k].id` is found at `k`.
proof fn lemma_selected_at_unique(s: Seq<MuonMatrix>, k: int)
    requires
        distinct_selection(s),
        0 <= k < s.len(),
    ensures
        selected_at(s, s[k].id_spec()) == Some(k),
{
    let id = s[k].id_spec();
    assert(exists|i: int| 0 <= i < s.len() && (#[trigger] s[i]).id_spec() == id);
    let c = choose|i: int| 0 <= i < s.len() && (#[trigger] s[i]).id_spec() == id;
    if c < k {
        assert(s[c].id_spec() != s[k].id_spec());
    } else if c > k {
        assert(s[k].id_spec() != s[c].id_spec());
    }
}

/// Whether `id` occurs in `ids`.
fn holds_id(ids: &Vec<ParamId>, id: ParamId) -> (r: bool)
    ensures
        r == ids@.contains(id),
{
    let mut j: usize = 0;
    while j < ids.len()
        invariant
            j <= ids@.len(),
            forall|k: int| 0 <= k < j ==> ids@[k] != id,
        decreases ids@.len() - j,
    {
        if ids[j] == id {
            assert(ids@[j as int] == id);
            return true;
        }
        j = j + 1;
    }
    false
}

/// The rejection text of [`foreign_selection_message`].
fn foreign_selection_error(t: &Vec<ParamId>) -> (s: String)
    ensures
        s@ == foreign_selection_message(t@),
{
    let mut s = String::from_str("Muon selection contains ");
    text::push_decimal(&mut s, t.len());
    s.append(" ParamId(s) that do not belong to this model: [");
    let ghost head = s@;
    let mut k: usize = 0;
    assert(t@.take(0) =~= Seq::<ParamId>::empty());
    while k < t.len()
        invariant
            k <= t@.len(),
            s@ == head + joined(t@.take(k as int)),
        decreases t@.len() - k,
    {
        let ghost prev = s@;
        if k > 0 {
            s.append(", ");
        }
        let item = param_id_string(t[k]);
        s.append(item.as_str());
        proof {
            let next = t@.take(k as int + 1);
            assert(next.drop_last() =~= t@.take(k as int));
            if k == 0 {
                assert(joined(t@.take(0)) =~= Seq::<char>::empty());
                assert(s@ =~= head + joined(next));
            } else {
                assert(s@ =~= head + joined(next));
            }
        }
        k = k + 1;
    }
    assert(t@.take(t@.len() as int) =~= t@);
    s.append("]");
    s
}

/// Splits a model's parameters, in first-seen order with repeats dropped, into those the
/// Muon selection names (with their orientations) and the exact remainder. Every selected
/// identity must belong to the model; otherwise the error lists the foreign identities in
/// print order.
pub fn partition_parameters(model: &Vec<ParamId>, selection: &Vec<MuonMatrix>) -> (r: Result<
    (Vec<MuonMatrix>, Vec<ParamId>),
    Error,
>)
    requires
        distinct_selection(selection@),
    ensures
        r is Ok <==> missing_ids(selection@, model@).len() == 0,
        r matches Ok((muon, auxiliary)) ==> muon@ == selected_part(selection@, model@)
            && auxiliary@ == auxiliary_part(selection@, model@),
        r matches Err(e) ==> exists|t: Seq<ParamId>|
            text_sorted(t) && t.to_multiset() == missing_ids(selection@, model@).to_multiset()
                && e@ == foreign_selection_message(t),
{
    let n = model.len();
    let mut seen: Vec<ParamId> = Vec::new();
    let mut muon: Vec<MuonMatrix> = Vec::new();
    let mut auxiliary: Vec<ParamId> = Vec::new();
    let mut i: usize = 0;
    while i < n
        invariant
            n == model@.len(),
            i <= n,
            distinct_selection(selection@),
            seen@ == first_seen(model@.take(i as int)),
            muon@ == selected_part(selection@, model@.take(i as int)),
            auxiliary@ == auxiliary_part(selection@, model@.take(i as int)),
        decreases n - i,
    {
        let id = model[i];
        proof {
            let next = model@.take(i as int + 1);
            assert(next.drop_last() =~= model@.take(i as int));
            assert(next.last() == id);
        }
        if !holds_id(&seen, id) {
            seen.push(id);
            match position_of(selection, id) {
                Some(k) => {
                    proof {
                        lemma_selected_at_unique(selection@, k as int);
                    }
                    muon.push(selection[k]);
                },
                None => {
                    auxiliary.push(id);
                },
            }
        }
        i = i + 1;
    }
    assert(model@.take(n as int) =~= model@);
    let m = selection.len();
    let mut missing: Vec<ParamId> = Vec::new();
    let mut j: usize = 0;
    while j < m
        invariant
            m == selection@.len(),
            j <= m,
            missing@ == missing_ids(selection@.take(j as int), model@),
        decreases m - j,
    {
        let id = selection[j].param_id();
        proof {
            let next = selection@.take(j as int + 1);
            assert(next.drop_last() =~= selection@.take(j as int));
        }
        if !holds_id(model, id) {
            missing.push(id);
        }
        j = j + 1;
    }
    assert(selection@.take(m as int) =~= selection@);
    if missing.len() > 0 {
        let ghost wanted = missing@;
        let sorted = sort_by_text(missing);
        let message = foreign_selection_error(&sorted);
        proof {
            sorted@.to_multiset_ensures();
            wanted.to_multiset_ensures();
            assert(missing_ids(selection@, model@).len() != 0);
        }
        return Err(Error::new(message));
    }
    Ok((muon, auxiliary))
}

proof fn lemma_push_contains<A>(s: Seq<A>, x: A)
    ensures
        forall|y: A| #[trigger] s.push(x).contains(y) <==> s.contains(y) || y == x,
{
    assert forall|y: A| #[trigger] s.push(x).contains(y) <==> s.contains(y) || y == x by {
        if s.push(x).contains(y) {
            let k = choose|k: int| 0 <= k < s.len() + 1 && s.push(x)[k] == y;
            if k < s.len() {
                assert(s[k] == y);
            }
        }
        if s.contains(y) {
            let k = choose|k: int| 0 <= k < s.len() && s[k] == y;
            assert(s.push(x)[k] == y);
        }
        if y == x {
            assert(s.push(x)[s.len() as int] == y);
        }
    }
}

proof fn lemma_first_seen_contains(ids: Seq<ParamId>)
    ensures
        forall|id: ParamId| first_seen(ids).contains(id) <==> ids.contains(id),
    decreases ids.len(),
{
    if ids.len() > 0 {
        let p = ids.drop_last();
        lemma_first_seen_contains(p);
        assert(ids =~= p.push(ids.last()));
        lemma_push_contains(p, ids.last());
        lemma_push_contains(first_seen(p), ids.last());
    }
}

proof fn lemma_missing_empty(s: Seq<MuonMatrix>, ids: Seq<ParamId>)
    ensures
        missing_ids(s, ids).len() == 0 <==> forall|k: int|
            0 <= k < s.len() ==> ids.contains(#[trigger] s[k].id_spec()),
    decreases s.len(),
{
    if s.len() > 0 {
        let p = s.drop_last();
        lemma_missing_empty(p, ids);
        if missing_ids(s, ids).len() == 0 {
            assert forall|k: int| 0 <= k < s.len() implies ids.contains(#[trigger] s[k].id_spec()) by {
                if k < p.len() {
                    assert(p[k] == s[k]);
                }
            }
        } else if ids.contains(s.last().id_spec()) {
            assert(missing_ids(p, ids).len() != 0);
            let k = choose|k: int| 0 <= k < p.len() && !ids.contains(#[trigger] p[k].id_spec());
            assert(p[k] == s[k]);
        }
    }
}

/// The Muon partition is exact: the Muon part holds each selected matrix whose parameter
/// the model has, the remainder holds each model parameter the selection does not name,
/// and together they hold each distinct model parameter once. When no selected identity
/// is foreign to the model, the Muon part is the whole selection.
pub proof fn lemma_partition_is_exact(s: Seq<MuonMatrix>, ids: Seq<ParamId>)
    requires
        distinct_selection(s),
    ensures
        selected_part(s, ids).len() + auxiliary_part(s, ids).len() == first_seen(ids).len(),
        forall|id: ParamId|
            #[trigger] auxiliary_part(s, ids).contains(id) <==> ids.contains(id) && selected_at(
                s,
                id,
            ) is None,
        forall|m: MuonMatrix|
            #[trigger] selected_part(s, ids).contains(m) <==> s.contains(m) && ids.contains(
                m.id_spec(),
            ),
        missing_ids(s, ids).len() == 0 ==> forall|m: MuonMatrix|
            #[trigger] selected_part(s, ids).contains(m) <==> s.contains(m),
    decreases ids.len(),
{
    lemma_missing_empty(s, ids);
    if ids.len() > 0 {
        let p = ids.drop_last();
        let x = ids.last();
        lemma_partition_is_exact(s, p);
        lemma_first_seen_contains(p);
        assert(ids =~= p.push(x));
        lemma_push_contains(p, x);
        let sp = selected_part(s, p);
        let ap = auxiliary_part(s, p);
        if !first_seen(p).contains(x) {
            match selected_at(s, x) {
                Some(k) => {
                    assert(0 <= k < s.len() && s[k].id_spec() == x);
                    assert(selected_part(s, ids) == sp.push(s[k]));
                    assert(auxiliary_part(s, ids) == ap);
                    lemma_push_contains(sp, s[k]);
                    assert forall|m: MuonMatrix|
                        s.contains(m) && m.id_spec() == x implies m == s[k] by {
                        let j = choose|j: int| 0 <= j < s.len() && s[j] == m;
                        if j < k {
                            assert(s[j].id_spec() != s[k].id_spec());
                        } else if j > k {
                            assert(s[k].id_spec() != s[j].id_spec());
                        }
                    }
                    assert(s.contains(s[k]));
                },
                None => {
                    assert(selected_part(s, ids) == sp);
                    assert(auxiliary_part(s, ids) == ap.push(x));
                    lemma_push_contains(ap, x);
                    assert forall|m: MuonMatrix| s.contains(m) implies m.id_spec() != x by {
                        let j = choose|j: int| 0 <= j < s.len() && s[j] == m;
                        assert(s[j].id_spec() != x);
                    }
                },
            }
        } else {
            assert(selected_part(s, ids) == sp);
            assert(auxiliary_part(s, ids) == ap);
            assert(first_seen(ids) == first_seen(p));
        }
    }
}

} // verus!
