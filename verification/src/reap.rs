//! Plans for pruning experts and for re-quantising selected tensors.

use crate::json;
use crate::json::{json_of, json_of_text, json_seq, JsonV};
use crate::text;
use crate::text::decimal;
use vstd::prelude::*;

verus! {

/// What part of a layer an override is for.
#[derive(Debug, Clone, Copy, PartialEq, Eq, Structural)]
pub enum Role {
    RoutedExperts,
    SharedExpert,
    Attention,
    Router,
    LmHead,
    Embed,
}

/// The role that a text names.
pub open spec fn role_named(s: Seq<char>) -> Option<Role> {
    if s == "routed_experts"@ {
        Some(Role::RoutedExperts)
    } else if s == "shared_expert"@ {
        Some(Role::SharedExpert)
    } else if s == "attention"@ {
        Some(Role::Attention)
    } else if s == "router"@ {
        Some(Role::Router)
    } else if s == "lm_head"@ {
        Some(Role::LmHead)
    } else if s == "embed"@ {
        Some(Role::Embed)
    } else {
        None
    }
}

/// The error's text of an unknown role.
pub open spec fn unknown_role(s: Seq<char>) -> Seq<char> {
    "reap: unknown role '"@ + s + "'"@
}

impl Role {
    /// Reads a role's name.
    pub fn parse(s: &str) -> (r: Result<Role, String>)
        ensures
            match role_named(s@) {
                Some(role) => r == Ok::<Role, String>(role),
                None => r is Err && r->Err_0@ == unknown_role(s@),
            },
    {
        if text::same(s, "routed_experts") {
            Ok(Role::RoutedExperts)
        } else if text::same(s, "shared_expert") {
            Ok(Role::SharedExpert)
        } else if text::same(s, "attention") {
            Ok(Role::Attention)
        } else if text::same(s, "router") {
            Ok(Role::Router)
        } else if text::same(s, "lm_head") {
            Ok(Role::LmHead)
        } else if text::same(s, "embed") {
            Ok(Role::Embed)
        } else {
            let mut e = "reap: unknown role '".to_owned();
            e.append(s);
            e.append("'");
            Err(e)
        }
    }
}

/// One selective re-quantisation.
#[derive(Debug, PartialEq, Eq)]
pub struct QuantOverride {
    pub layer: usize,
    pub role: Role,
    /// Only for routed experts; none is the whole role at this layer.
    pub experts: Vec<u32>,
    pub tier: String,
}

/// What an override holds.
#[verifier::ext_equal]
pub struct OverrideV {
    pub layer: usize,
    pub role: Role,
    pub experts: Seq<u32>,
    pub tier: Seq<char>,
}

impl View for QuantOverride {
    type V = OverrideV;

    open spec fn view(&self) -> OverrideV {
        OverrideV {
            layer: self.layer,
            role: self.role,
            experts: self.experts@,
            tier: self.tier@,
        }
    }
}

/// What each of several overrides holds.
pub open spec fn overrides_view(overrides: Seq<QuantOverride>) -> Seq<OverrideV> {
    overrides.map_values(|o: QuantOverride| o@)
}

/// What each of several rows holds.
pub open spec fn rows_view(rows: Seq<Vec<u32>>) -> Seq<Seq<u32>> {
    rows.map_values(|r: Vec<u32>| r@)
}

/// Which experts to keep and which tensors to re-quantise.
#[derive(Debug, PartialEq, Eq)]
pub struct ReapPlan {
    pub model_arch: Option<String>,
    pub num_layers: usize,
    pub original_experts: usize,
    /// The expert in each slot of each layer; without one all experts are kept.
    pub keep: Option<Vec<Vec<u32>>>,
    pub quant_overrides: Vec<QuantOverride>,
    pub dir: String,
}

/// What a plan holds.
#[verifier::ext_equal]
pub struct ReapPlanV {
    pub model_arch: Option<Seq<char>>,
    pub num_layers: usize,
    pub original_experts: usize,
    pub keep: Option<Seq<Seq<u32>>>,
    pub quant_overrides: Seq<OverrideV>,
    pub dir: Seq<char>,
}

impl View for ReapPlan {
    type V = ReapPlanV;

    open spec fn view(&self) -> ReapPlanV {
        ReapPlanV {
            model_arch: crate::chat::opt_text(self.model_arch),
            num_layers: self.num_layers,
            original_experts: self.original_experts,
            keep: match self.keep {
                Some(k) => Some(rows_view(k@)),
                None => None,
            },
            quant_overrides: overrides_view(self.quant_overrides@),
            dir: self.dir@,
        }
    }
}

/// What the entries of a layer's row come to: the indices, or the error of the
/// first entry that is no index or is out of range.
pub open spec fn keep_entries(entries: Seq<JsonV>, layer: nat, experts: usize) -> Result<
    Seq<u32>,
    Seq<char>,
>
    decreases entries.len(),
{
    if entries.len() == 0 {
        Ok(Seq::empty())
    } else {
        match keep_entries(entries.drop_last(), layer, experts) {
            Err(e) => Err(e),
            Ok(done) => match entries.last().unsigned() {
                None => Err("reap: keep layer "@ + decimal(layer) + " non-integer index"@),
                Some(i) => if i >= experts {
                    Err(
                        "reap: keep layer "@ + decimal(layer) + " index "@ + decimal(i as nat)
                            + " >= original_experts "@ + decimal(experts as nat),
                    )
                } else {
                    Ok(done.push(i as u32))
                },
            },
        }
    }
}

/// What a layer's row comes to: as many indices as the first layer's, each in range.
pub open spec fn keep_row(row: JsonV, layer: nat, kept: nat, experts: usize) -> Result<
    Seq<u32>,
    Seq<char>,
> {
    match row.items() {
        None => Err("reap: keep layer "@ + decimal(layer) + " not an array"@),
        Some(entries) => if entries.len() != kept {
            Err(
                "reap: keep layer "@ + decimal(layer) + " has "@ + decimal(entries.len())
                    + " entries, expected "@ + decimal(kept),
            )
        } else {
            keep_entries(entries, layer, experts)
        },
    }
}

/// What the rows come to, or the error of the first that is refused.
pub open spec fn keep_rows(rows: Seq<JsonV>, kept: nat, experts: usize) -> Result<
    Seq<Seq<u32>>,
    Seq<char>,
>
    decreases rows.len(),
{
    if rows.len() == 0 {
        Ok(Seq::empty())
    } else {
        match keep_rows(rows.drop_last(), kept, experts) {
            Err(e) => Err(e),
            Ok(done) => match keep_row(rows.last(), (rows.len() - 1) as nat, kept, experts) {
                Ok(row) => Ok(done.push(row)),
                Err(e) => Err(e),
            },
        }
    }
}

/// The length that every row must have: the first row's.
pub open spec fn kept_of(rows: Seq<JsonV>) -> nat {
    if rows.len() == 0 {
        0
    } else {
        match rows[0].items() {
            Some(a) => a.len(),
            None => 0,
        }
    }
}

/// What the plan's `keep` comes to; without rows all experts are kept.
pub open spec fn keep_of(plan: JsonV, layers: usize, experts: usize) -> Result<
    Option<Seq<Seq<u32>>>,
    Seq<char>,
> {
    let rows = match plan.member("keep"@) {
        Some(k) => k.member_items("per_layer"@),
        None => None,
    };
    match rows {
        None => Ok(None),
        Some(rows) => if rows.len() != layers {
            Err(
                "reap: keep.per_layer has "@ + decimal(rows.len()) + " layers, model has "@
                    + decimal(layers as nat),
            )
        } else {
            match keep_rows(rows, kept_of(rows), experts) {
                Ok(k) => Ok(Some(k)),
                Err(e) => Err(e),
            }
        },
    }
}

/// The start of an override's error.
pub open spec fn override_at(i: nat) -> Seq<char> {
    "reap: quant_override["@ + decimal(i) + "]"@
}

/// What an override's experts come to, or the error of the first that is no
/// index or is out of range.
pub open spec fn override_experts(entries: Seq<JsonV>, i: nat, experts: usize) -> Result<
    Seq<u32>,
    Seq<char>,
>
    decreases entries.len(),
{
    if entries.len() == 0 {
        Ok(Seq::empty())
    } else {
        match override_experts(entries.drop_last(), i, experts) {
            Err(e) => Err(e),
            Ok(done) => match entries.last().unsigned() {
                None => Err(
                    override_at(i) + " experts["@ + decimal((entries.len() - 1) as nat)
                        + "] not an integer"@,
                ),
                Some(n) => if n >= experts {
                    Err(
                        override_at(i) + " expert "@ + decimal(n as nat) + " >= original_experts "@
                            + decimal(experts as nat),
                    )
                } else {
                    Ok(done.push(n as u32))
                },
            },
        }
    }
}

/// What an override comes to. The layer must be the model's, the role known,
/// the experts in range and only those of the routed role, and a tier named.
pub open spec fn override_of(o: JsonV, i: nat, layers: usize, experts: usize) -> Result<
    OverrideV,
    Seq<char>,
> {
    match o.member_unsigned("layer"@) {
        None => Err(override_at(i) + " missing layer"@),
        Some(l) => if l >= layers {
            Err(
                override_at(i) + " layer "@ + decimal(l as nat) + " >= num_layers "@
                    + decimal(layers as nat),
            )
        } else {
            match o.member_text("role"@) {
                None => Err(override_at(i) + " missing role"@),
                Some(name) => match role_named(name) {
                    None => Err(unknown_role(name)),
                    Some(role) => match override_experts(
                        match o.member_items("experts"@) {
                            Some(a) => a,
                            None => Seq::empty(),
                        },
                        i,
                        experts,
                    ) {
                        Err(e) => Err(e),
                        Ok(list) => if list.len() > 0 && role != Role::RoutedExperts {
                            Err(
                                override_at(i)
                                    + " lists experts but role is not routed_experts"@,
                            )
                        } else {
                            match o.member_text("tier"@) {
                                None => Err(override_at(i) + " missing tier"@),
                                Some(tier) => Ok(
                                    (OverrideV { layer: l as usize, role, experts: list, tier }),
                                ),
                            }
                        },
                    },
                },
            }
        },
    }
}

/// What the overrides come to, or the error of the first that is refused.
pub open spec fn overrides_of(items: Seq<JsonV>, layers: usize, experts: usize) -> Result<
    Seq<OverrideV>,
    Seq<char>,
>
    decreases items.len(),
{
    if items.len() == 0 {
        Ok(Seq::empty())
    } else {
        match overrides_of(items.drop_last(), layers, experts) {
            Err(e) => Err(e),
            Ok(done) => match override_of(
                items.last(),
                (items.len() - 1) as nat,
                layers,
                experts,
            ) {
                Ok(o) => Ok(done.push(o)),
                Err(e) => Err(e),
            },
        }
    }
}

/// The number under `key`, else what the model says.
pub open spec fn count_of(plan: JsonV, key: Seq<char>, expected: usize) -> nat {
    match plan.member_unsigned(key) {
        Some(n) => n as nat,
        None => expected as nat,
    }
}

/// What a plan document comes to for a model: the plan, or the error's text.
pub open spec fn plan_of(plan: JsonV, dir: Seq<char>, layers: usize, experts: usize) -> Result<
    ReapPlanV,
    Seq<char>,
> {
    let named_experts = count_of(plan, "original_experts"@, experts);
    let named_layers = count_of(plan, "num_layers"@, layers);
    if named_experts != experts {
        Err(
            "reap: original_experts "@ + decimal(named_experts)
                + " != model n_routed_experts "@ + decimal(experts as nat),
        )
    } else if named_layers != layers {
        Err(
            "reap: num_layers "@ + decimal(named_layers) + " != model num_hidden_layers "@
                + decimal(layers as nat),
        )
    } else {
        match keep_of(plan, layers, experts) {
            Err(e) => Err(e),
            Ok(keep) => match overrides_of(
                match plan.member_items("quant_overrides"@) {
                    Some(a) => a,
                    None => Seq::empty(),
                },
                layers,
                experts,
            ) {
                Err(e) => Err(e),
                Ok(quant_overrides) => Ok(
                    (ReapPlanV {
                        model_arch: plan.member_text("model_arch"@),
                        num_layers: layers,
                        original_experts: experts,
                        keep,
                        quant_overrides,
                        dir,
                    }),
                ),
            },
        }
    }
}

proof fn keep_entries_error_stands(entries: Seq<JsonV>, layer: nat, experts: usize, k: int)
    requires
        0 <= k <= entries.len(),
        keep_entries(entries.subrange(0, k), layer, experts) is Err,
    ensures
        keep_entries(entries, layer, experts) == keep_entries(
            entries.subrange(0, k),
            layer,
            experts,
        ),
    decreases entries.len(),
{
    if k == entries.len() {
        assert(entries.subrange(0, k) =~= entries);
    } else {
        assert(entries.drop_last().subrange(0, k) =~= entries.subrange(0, k));
        keep_entries_error_stands(entries.drop_last(), layer, experts, k);
    }
}

proof fn keep_rows_error_stands(rows: Seq<JsonV>, kept: nat, experts: usize, k: int)
    requires
        0 <= k <= rows.len(),
        keep_rows(rows.subrange(0, k), kept, experts) is Err,
    ensures
        keep_rows(rows, kept, experts) == keep_rows(rows.subrange(0, k), kept, experts),
    decreases rows.len(),
{
    if k == rows.len() {
        assert(rows.subrange(0, k) =~= rows);
    } else {
        assert(rows.drop_last().subrange(0, k) =~= rows.subrange(0, k));
        keep_rows_error_stands(rows.drop_last(), kept, experts, k);
    }
}

proof fn experts_error_stands(entries: Seq<JsonV>, i: nat, experts: usize, k: int)
    requires
        0 <= k <= entries.len(),
        override_experts(entries.subrange(0, k), i, experts) is Err,
    ensures
        override_experts(entries, i, experts) == override_experts(
            entries.subrange(0, k),
            i,
            experts,
        ),
    decreases entries.len(),
{
    if k == entries.len() {
        assert(entries.subrange(0, k) =~= entries);
    } else {
        assert(entries.drop_last().subrange(0, k) =~= entries.subrange(0, k));
        experts_error_stands(entries.drop_last(), i, experts, k);
    }
}

proof fn overrides_error_stands(items: Seq<JsonV>, layers: usize, experts: usize, k: int)
    requires
        0 <= k <= items.len(),
        overrides_of(items.subrange(0, k), layers, experts) is Err,
    ensures
        overrides_of(items, layers, experts) == overrides_of(
            items.subrange(0, k),
            layers,
            experts,
        ),
    decreases items.len(),
{
    if k == items.len() {
        assert(items.subrange(0, k) =~= items);
    } else {
        assert(items.drop_last().subrange(0, k) =~= items.subrange(0, k));
        overrides_error_stands(items.drop_last(), layers, experts, k);
    }
}

fn read_keep_entries(
    entries: &Vec<serde_json::Value>,
    layer: usize,
    experts: usize,
) -> (r: Result<Vec<u32>, String>)
    ensures
        match keep_entries(json_seq(entries@), layer as nat, experts) {
            Ok(s) => r is Ok && r->Ok_0@ == s,
            Err(e) => r is Err && r->Err_0@ == e,
        },
{
    let ghost js = json_seq(entries@);
    let mut out: Vec<u32> = Vec::new();
    let mut i: usize = 0;
    assert(js.subrange(0, 0) =~= Seq::<JsonV>::empty());
    while i < entries.len()
        invariant
            i <= entries.len(),
            js == json_seq(entries@),
            keep_entries(js.subrange(0, i as int), layer as nat, experts) == Ok::<
                Seq<u32>,
                Seq<char>,
            >(out@),
        decreases entries.len() - i,
    {
        let ghost pre = js.subrange(0, i + 1);
        assert(pre.drop_last() =~= js.subrange(0, i as int));
        assert(pre.last() == json_of(entries@[i as int]));
        match json::as_u64(&entries[i]) {
            None => {
                let mut s = "reap: keep layer ".to_owned();
                text::push_decimal(&mut s, layer);
                s.append(" non-integer index");
                proof {
                    keep_entries_error_stands(js, layer as nat, experts, i + 1);
                }
                return Err(s);
            },
            Some(x) => {
                if x >= experts as u64 {
                    let mut s = "reap: keep layer ".to_owned();
                    text::push_decimal(&mut s, layer);
                    s.append(" index ");
                    text::push_number(&mut s, x);
                    s.append(" >= original_experts ");
                    text::push_decimal(&mut s, experts);
                    proof {
                        keep_entries_error_stands(js, layer as nat, experts, i + 1);
                    }
                    return Err(s);
                }
                out.push(
                    #[verifier::truncate]
                    (x as u32),
                );
            },
        }
        i = i + 1;
    }
    assert(js.subrange(0, js.len() as int) =~= js);
    Ok(out)
}

fn read_keep_row(
    row: &serde_json::Value,
    layer: usize,
    kept: usize,
    experts: usize,
) -> (r: Result<Vec<u32>, String>)
    ensures
        match keep_row(json_of(*row), layer as nat, kept as nat, experts) {
            Ok(s) => r is Ok && r->Ok_0@ == s,
            Err(e) => r is Err && r->Err_0@ == e,
        },
{
    match json::as_array(row) {
        None => {
            let mut s = "reap: keep layer ".to_owned();
            text::push_decimal(&mut s, layer);
            s.append(" not an array");
            Err(s)
        },
        Some(entries) => {
            assert(json_seq(entries@).len() == entries@.len());
            if entries.len() != kept {
                let mut s = "reap: keep layer ".to_owned();
                text::push_decimal(&mut s, layer);
                s.append(" has ");
                text::push_decimal(&mut s, entries.len());
                s.append(" entries, expected ");
                text::push_decimal(&mut s, kept);
                return Err(s);
            }
            read_keep_entries(entries, layer, experts)
        },
    }
}

fn read_keep_rows(
    rows: &Vec<serde_json::Value>,
    kept: usize,
    experts: usize,
) -> (r: Result<Vec<Vec<u32>>, String>)
    ensures
        match keep_rows(json_seq(rows@), kept as nat, experts) {
            Ok(s) => r is Ok && rows_view(r->Ok_0@) == s,
            Err(e) => r is Err && r->Err_0@ == e,
        },
{
    let ghost js = json_seq(rows@);
    let mut out: Vec<Vec<u32>> = Vec::new();
    let mut i: usize = 0;
    assert(js.subrange(0, 0) =~= Seq::<JsonV>::empty());
    assert(rows_view(out@) =~= Seq::<Seq<u32>>::empty());
    while i < rows.len()
        invariant
            i <= rows.len(),
            js == json_seq(rows@),
            keep_rows(js.subrange(0, i as int), kept as nat, experts) == Ok::<
                Seq<Seq<u32>>,
                Seq<char>,
            >(rows_view(out@)),
        decreases rows.len() - i,
    {
        let ghost pre = js.subrange(0, i + 1);
        assert(pre.drop_last() =~= js.subrange(0, i as int));
        assert(pre.last() == json_of(rows@[i as int]));
        match read_keep_row(&rows[i], i, kept, experts) {
            Ok(row) => {
                let ghost had = out@;
                out.push(row);
                assert(rows_view(out@) =~= rows_view(had).push(row@));
            },
            Err(e) => {
                proof {
                    keep_rows_error_stands(js, kept as nat, experts, i + 1);
                }
                return Err(e);
            },
        }
        i = i + 1;
    }
    assert(js.subrange(0, js.len() as int) =~= js);
    Ok(out)
}

/// What an optional list of rows holds.
pub open spec fn opt_rows(keep: Option<Vec<Vec<u32>>>) -> Option<Seq<Seq<u32>>> {
    match keep {
        Some(k) => Some(rows_view(k@)),
        None => None,
    }
}

fn read_keep(plan: &serde_json::Value, layers: usize, experts: usize) -> (r: Result<
    Option<Vec<Vec<u32>>>,
    String,
>)
    ensures
        match keep_of(json_of(*plan), layers, experts) {
            Ok(k) => r is Ok && opt_rows(r->Ok_0) == k,
            Err(e) => r is Err && r->Err_0@ == e,
        },
{
    let rows = match json::get(plan, "keep") {
        Some(k) => match json::member_items(k, "per_layer") {
            Some(rows) => rows,
            None => {
                return Ok(None);
            },
        },
        None => {
            return Ok(None);
        },
    };
    let ghost js = json_seq(rows@);
    if rows.len() != layers {
        let mut s = "reap: keep.per_layer has ".to_owned();
        text::push_decimal(&mut s, rows.len());
        s.append(" layers, model has ");
        text::push_decimal(&mut s, layers);
        return Err(s);
    }
    let kept: usize = if rows.len() == 0 {
        0
    } else {
        assert(js[0] == json_of(rows@[0]));
        match json::as_array(&rows[0]) {
            Some(a) => a.len(),
            None => 0,
        }
    };
    assert(kept == kept_of(js));
    match read_keep_rows(rows, kept, experts) {
        Ok(k) => Ok(Some(k)),
        Err(e) => Err(e),
    }
}

fn override_text(i: usize, rest: &str) -> (r: String)
    ensures
        r@ == override_at(i as nat) + rest@,
{
    let mut s = "reap: quant_override[".to_owned();
    text::push_decimal(&mut s, i);
    s.append("]");
    s.append(rest);
    s
}

fn read_override_experts(
    entries: &Vec<serde_json::Value>,
    i: usize,
    experts: usize,
) -> (r: Result<Vec<u32>, String>)
    ensures
        match override_experts(json_seq(entries@), i as nat, experts) {
            Ok(s) => r is Ok && r->Ok_0@ == s,
            Err(e) => r is Err && r->Err_0@ == e,
        },
{
    let ghost js = json_seq(entries@);
    let mut out: Vec<u32> = Vec::new();
    let mut j: usize = 0;
    assert(js.subrange(0, 0) =~= Seq::<JsonV>::empty());
    while j < entries.len()
        invariant
            j <= entries.len(),
            js == json_seq(entries@),
            override_experts(js.subrange(0, j as int), i as nat, experts) == Ok::<
                Seq<u32>,
                Seq<char>,
            >(out@),
        decreases entries.len() - j,
    {
        let ghost pre = js.subrange(0, j + 1);
        assert(pre.drop_last() =~= js.subrange(0, j as int));
        assert(pre.last() == json_of(entries@[j as int]));
        match json::as_u64(&entries[j]) {
            None => {
                let mut s = override_text(i, " experts[");
                text::push_decimal(&mut s, j);
                s.append("] not an integer");
                proof {
                    experts_error_stands(js, i as nat, experts, j + 1);
                }
                return Err(s);
            },
            Some(n) => {
                if n >= experts as u64 {
                    let mut s = override_text(i, " expert ");
                    text::push_number(&mut s, n);
                    s.append(" >= original_experts ");
                    text::push_decimal(&mut s, experts);
                    proof {
                        experts_error_stands(js, i as nat, experts, j + 1);
                    }
                    return Err(s);
                }
                out.push(
                    #[verifier::truncate]
                    (n as u32),
                );
            },
        }
        j = j + 1;
    }
    assert(js.subrange(0, js.len() as int) =~= js);
    Ok(out)
}

fn read_override(
    o: &serde_json::Value,
    i: usize,
    layers: usize,
    experts: usize,
) -> (r: Result<QuantOverride, String>)
    ensures
        match override_of(json_of(*o), i as nat, layers, experts) {
            Ok(v) => r is Ok && r->Ok_0@ == v,
            Err(e) => r is Err && r->Err_0@ == e,
        },
{
    let layer: u64 = match json::member_unsigned(o, "layer") {
        Some(l) => l,
        None => {
            return Err(override_text(i, " missing layer"));
        },
    };
    if layer >= layers as u64 {
        let mut s = override_text(i, " layer ");
        text::push_number(&mut s, layer);
        s.append(" >= num_layers ");
        text::push_decimal(&mut s, layers);
        return Err(s);
    }
    let role = match json::member_text(o, "role") {
        None => {
            return Err(override_text(i, " missing role"));
        },
        Some(name) => match Role::parse(name) {
            Ok(role) => role,
            Err(e) => {
                return Err(e);
            },
        },
    };
    let list: Vec<u32> = match json::member_items(o, "experts") {
        Some(a) => match read_override_experts(a, i, experts) {
            Ok(l) => l,
            Err(e) => {
                return Err(e);
            },
        },
        None => Vec::new(),
    };
    if list.len() > 0 && role != Role::RoutedExperts {
        return Err(override_text(i, " lists experts but role is not routed_experts"));
    }
    let tier = match json::member_text(o, "tier") {
        Some(t) => t.to_owned(),
        None => {
            return Err(override_text(i, " missing tier"));
        },
    };
    Ok(QuantOverride { layer: layer as usize, role, experts: list, tier })
}

fn read_overrides(
    items: &Vec<serde_json::Value>,
    layers: usize,
    experts: usize,
) -> (r: Result<Vec<QuantOverride>, String>)
    ensures
        match overrides_of(json_seq(items@), layers, experts) {
            Ok(s) => r is Ok && overrides_view(r->Ok_0@) == s,
            Err(e) => r is Err && r->Err_0@ == e,
        },
{
    let ghost js = json_seq(items@);
    let mut out: Vec<QuantOverride> = Vec::new();
    let mut i: usize = 0;
    assert(js.subrange(0, 0) =~= Seq::<JsonV>::empty());
    assert(overrides_view(out@) =~= Seq::<OverrideV>::empty());
    while i < items.len()
        invariant
            i <= items.len(),
            js == json_seq(items@),
            overrides_of(js.subrange(0, i as int), layers, experts) == Ok::<
                Seq<OverrideV>,
                Seq<char>,
            >(overrides_view(out@)),
        decreases items.len() - i,
    {
        let ghost pre = js.subrange(0, i + 1);
        assert(pre.drop_last() =~= js.subrange(0, i as int));
        assert(pre.last() == json_of(items@[i as int]));
        match read_override(&items[i], i, layers, experts) {
            Ok(o) => {
                let ghost had = out@;
                out.push(o);
                assert(overrides_view(out@) =~= overrides_view(had).push(o@));
            },
            Err(e) => {
                proof {
                    overrides_error_stands(js, layers, experts, i + 1);
                }
                return Err(e);
            },
        }
        i = i + 1;
    }
    assert(js.subrange(0, js.len() as int) =~= js);
    Ok(out)
}

/// Why a plan could not be loaded.
#[derive(Debug)]
pub enum ReapError {
    /// The text writes no document.
    Parse(serde_json::Error),
    /// The document is refused, for this reason.
    Refused(String),
}

impl ReapPlan {
    /// Reads a plan document for a model of so many layers and experts.
    pub fn from_json(
        plan: &serde_json::Value,
        dir: &str,
        layers: usize,
        experts: usize,
    ) -> (r: Result<ReapPlan, String>)
        ensures
            match plan_of(json_of(*plan), dir@, layers, experts) {
                Ok(v) => r is Ok && r->Ok_0@ == v,
                Err(e) => r is Err && r->Err_0@ == e,
            },
    {
        let named_experts: u64 = match json::member_unsigned(plan, "original_experts") {
            Some(n) => n,
            None => experts as u64,
        };
        if named_experts != experts as u64 {
            let mut s = "reap: original_experts ".to_owned();
            text::push_number(&mut s, named_experts);
            s.append(" != model n_routed_experts ");
            text::push_decimal(&mut s, experts);
            return Err(s);
        }
        let named_layers: u64 = match json::member_unsigned(plan, "num_layers") {
            Some(n) => n,
            None => layers as u64,
        };
        if named_layers != layers as u64 {
            let mut s = "reap: num_layers ".to_owned();
            text::push_number(&mut s, named_layers);
            s.append(" != model num_hidden_layers ");
            text::push_decimal(&mut s, layers);
            return Err(s);
        }
        let keep = match read_keep(plan, layers, experts) {
            Ok(k) => k,
            Err(e) => {
                return Err(e);
            },
        };
        let quant_overrides: Vec<QuantOverride> = match json::member_items(
            plan,
            "quant_overrides",
        ) {
            Some(a) => match read_overrides(a, layers, experts) {
                Ok(o) => o,
                Err(e) => {
                    return Err(e);
                },
            },
            None => Vec::new(),
        };
        let r = ReapPlan {
            model_arch: crate::chat::owned(json::member_text(plan, "model_arch")),
            num_layers: layers,
            original_experts: experts,
            keep,
            quant_overrides,
            dir: dir.to_owned(),
        };
        assert(overrides_view(r.quant_overrides@) =~= overrides_of(
            match json_of(*plan).member_items("quant_overrides"@) {
                Some(a) => a,
                None => Seq::empty(),
            },
            layers,
            experts,
        )->Ok_0);
        Ok(r)
    }

    /// Reads a plan's text for a model of so many layers and experts. `dir` is
    /// where the plan was found.
    pub fn load(text: &str, dir: &str, layers: usize, experts: usize) -> (r: Result<
        ReapPlan,
        ReapError,
    >)
        ensures
            match json_of_text(text@) {
                None => r is Err && r->Err_0 is Parse,
                Some(plan) => match plan_of(plan, dir@, layers, experts) {
                    Ok(v) => r is Ok && r->Ok_0@ == v,
                    Err(e) => r is Err && r->Err_0 is Refused && r->Err_0->Refused_0@ == e,
                },
            },
    {
        match json::parse(text) {
            Ok(plan) => match ReapPlan::from_json(&plan, dir, layers, experts) {
                Ok(p) => Ok(p),
                Err(e) => Err(ReapError::Refused(e)),
            },
            Err(e) => Err(ReapError::Parse(e)),
        }
    }

    /// The experts that every layer keeps.
    pub open spec fn kept(&self) -> nat {
        match self.keep {
            Some(k) => if k@.len() > 0 {
                k@[0]@.len()
            } else {
                0
            },
            None => self.original_experts as nat,
        }
    }

    /// The experts that every layer keeps.
    pub fn kept_per_layer(&self) -> (r: usize)
        ensures
            r == self.kept(),
    {
        match &self.keep {
            Some(k) => if k.len() > 0 {
                k[0].len()
            } else {
                0
            },
            None => self.original_experts,
        }
    }

    /// The slots of a layer's experts.
    pub fn expert_plan(&self, layer: usize) -> (r: ExpertPlan<'_>)
        requires
            self.keep is Some ==> layer < self.keep->Some_0@.len(),
        ensures
            match self.keep {
                Some(k) => r.slots() == Some(k@[layer as int]@),
                None => r.slots() is None,
            },
    {
        match &self.keep {
            Some(k) => ExpertPlan { keep: Some(k[layer].as_slice()) },
            None => ExpertPlan { keep: None },
        }
    }
}

/// A layer's part of a plan.
#[derive(Debug, PartialEq, Eq)]
pub struct ExpertPlan<'a> {
    /// The expert in each slot; without one every slot holds its own.
    pub keep: Option<&'a [u32]>,
}

impl<'a> ExpertPlan<'a> {
    /// The expert in each slot.
    pub open spec fn slots(&self) -> Option<Seq<u32>> {
        match self.keep {
            Some(k) => Some(k@),
            None => None,
        }
    }

    /// The expert in each slot.
    pub fn keep(&self) -> (r: Option<&'a [u32]>)
        ensures
            r == self.keep,
    {
        self.keep
    }

    /// The expert in a slot.
    pub fn src(&self, slot: usize) -> (r: usize)
        requires
            self.slots() is Some ==> slot < self.slots()->Some_0.len(),
        ensures
            r == match self.slots() {
                Some(k) => k[slot as int] as usize,
                None => slot,
            },
    {
        match self.keep {
            Some(k) => k[slot] as usize,
            None => slot,
        }
    }

    /// How many slots a layer of `full` experts has.
    pub fn n_slots(&self, full: usize) -> (r: usize)
        ensures
            r == match self.slots() {
                Some(k) => k.len(),
                None => full as nat,
            },
    {
        match self.keep {
            Some(k) => k.len(),
            None => full,
        }
    }
}

proof fn keep_entries_in_range(entries: Seq<JsonV>, layer: nat, experts: usize)
    requires
        keep_entries(entries, layer, experts) is Ok,
    ensures
        keep_entries(entries, layer, experts)->Ok_0.len() == entries.len(),
        forall|i: int|
            0 <= i < entries.len() ==> #[trigger] keep_entries(entries, layer, experts)->Ok_0[i]
                < experts,
    decreases entries.len(),
{
    if entries.len() > 0 {
        keep_entries_in_range(entries.drop_last(), layer, experts);
    }
}

proof fn keep_rows_in_range(rows: Seq<JsonV>, kept: nat, experts: usize)
    requires
        keep_rows(rows, kept, experts) is Ok,
    ensures
        keep_rows(rows, kept, experts)->Ok_0.len() == rows.len(),
        forall|l: int|
            0 <= l < rows.len() ==> (#[trigger] keep_rows(rows, kept, experts)->Ok_0[l]).len()
                == kept,
        forall|l: int, i: int|
            0 <= l < rows.len() && 0 <= i < kept ==> #[trigger] keep_rows(
                rows,
                kept,
                experts,
            )->Ok_0[l][i] < experts,
    decreases rows.len(),
{
    if rows.len() > 0 {
        keep_rows_in_range(rows.drop_last(), kept, experts);
        let last = rows.last();
        keep_entries_in_range(last.items()->Some_0, (rows.len() - 1) as nat, experts);
    }
}

/// A loaded plan fits its model: where it prunes there is a row for every
/// layer, all rows are equally long, and every index is an expert of the model.
pub proof fn loaded_keep_fits(plan: JsonV, dir: Seq<char>, layers: usize, experts: usize)
    requires
        plan_of(plan, dir, layers, experts) is Ok,
    ensures
        ({
            let p = plan_of(plan, dir, layers, experts)->Ok_0;
            &&& p.num_layers == layers
            &&& p.original_experts == experts
            &&& p.keep is Some ==> {
                let k = p.keep->Some_0;
                &&& k.len() == layers
                &&& forall|a: int, b: int|
                    0 <= a < k.len() && 0 <= b < k.len() ==> (#[trigger] k[a]).len() == (
                    #[trigger] k[b]).len()
                &&& forall|l: int, i: int|
                    0 <= l < k.len() && 0 <= i < k[l].len() ==> #[trigger] k[l][i] < experts
            }
        }),
{
    match plan.member("keep"@) {
        Some(k) => match k.member_items("per_layer"@) {
            Some(rows) => {
                keep_rows_in_range(rows, kept_of(rows), experts);
            },
            None => {},
        },
        None => {},
    }
}

proof fn override_experts_in_range(entries: Seq<JsonV>, i: nat, experts: usize)
    requires
        override_experts(entries, i, experts) is Ok,
    ensures
        forall|j: int|
            0 <= j < override_experts(entries, i, experts)->Ok_0.len()
                ==> #[trigger] override_experts(entries, i, experts)->Ok_0[j] < experts,
    decreases entries.len(),
{
    if entries.len() > 0 {
        override_experts_in_range(entries.drop_last(), i, experts);
    }
}

/// Whether an override fits a model of so many layers and experts.
pub open spec fn override_fits(o: OverrideV, layers: usize, experts: usize) -> bool {
    &&& o.layer < layers
    &&& o.experts.len() > 0 ==> o.role == Role::RoutedExperts
    &&& forall|j: int| 0 <= j < o.experts.len() ==> #[trigger] o.experts[j] < experts
}

proof fn overrides_fit(items: Seq<JsonV>, layers: usize, experts: usize)
    requires
        overrides_of(items, layers, experts) is Ok,
    ensures
        forall|i: int|
            0 <= i < overrides_of(items, layers, experts)->Ok_0.len() ==> override_fits(
                #[trigger] overrides_of(items, layers, experts)->Ok_0[i],
                layers,
                experts,
            ),
    decreases items.len(),
{
    if items.len() > 0 {
        overrides_fit(items.drop_last(), layers, experts);
        let o = items.last();
        let i = (items.len() - 1) as nat;
        override_experts_in_range(
            match o.member_items("experts"@) {
                Some(a) => a,
                None => Seq::empty(),
            },
            i,
            experts,
        );
        assert(override_fits(override_of(o, i, layers, experts)->Ok_0, layers, experts));
    }
}

/// The overrides of a loaded plan fit its model: every layer is the model's,
/// only routed experts are named one by one, and every index is an expert.
pub proof fn loaded_overrides_fit(plan: JsonV, dir: Seq<char>, layers: usize, experts: usize)
    requires
        plan_of(plan, dir, layers, experts) is Ok,
    ensures
        forall|i: int|
            0 <= i < plan_of(plan, dir, layers, experts)->Ok_0.quant_overrides.len() ==> override_fits(
                #[trigger] plan_of(plan, dir, layers, experts)->Ok_0.quant_overrides[i],
                layers,
                experts,
            ),
{
    overrides_fit(
        match plan.member_items("quant_overrides"@) {
            Some(a) => a,
            None => Seq::empty(),
        },
        layers,
        experts,
    );
}

/// Each role has its own name.
pub proof fn roles_have_their_names(s: Seq<char>)
    ensures
        role_named(s) == Some(Role::RoutedExperts) <==> s == "routed_experts"@,
        role_named(s) == Some(Role::SharedExpert) <==> s == "shared_expert"@,
        role_named(s) == Some(Role::Attention) <==> s == "attention"@,
        role_named(s) == Some(Role::Router) <==> s == "router"@,
        role_named(s) == Some(Role::LmHead) <==> s == "lm_head"@,
        role_named(s) == Some(Role::Embed) <==> s == "embed"@,
{
    reveal_strlit("routed_experts");
    reveal_strlit("shared_expert");
    reveal_strlit("attention");
    reveal_strlit("router");
    reveal_strlit("lm_head");
    reveal_strlit("embed");
    assert("routed_experts"@.len() == 14 && "shared_expert"@.len() == 13 && "attention"@.len() == 9
        && "router"@.len() == 6 && "lm_head"@.len() == 7 && "embed"@.len() == 5);
}

/// A row is taken exactly where all its entries are experts of the model, and
/// then it names them in the entries' order.
pub proof fn rows_name_their_experts(entries: Seq<JsonV>, layer: nat, experts: usize)
    ensures
        keep_entries(entries, layer, experts) is Ok <==> forall|i: int|
            0 <= i < entries.len() ==> ((#[trigger] entries[i]).unsigned() is Some
                && entries[i].unsigned()->Some_0 < experts),
        keep_entries(entries, layer, experts) matches Ok(list) ==> {
            &&& list.len() == entries.len()
            &&& forall|i: int|
                0 <= i < list.len() ==> #[trigger] list[i]
                    == entries[i].unsigned()->Some_0 as u32
        },
    decreases entries.len(),
{
    if entries.len() > 0 {
        let init = entries.drop_last();
        rows_name_their_experts(init, layer, experts);
        let last = entries.len() - 1;
        assert(entries.last() == entries[last]);
        assert forall|i: int| 0 <= i < init.len() implies #[trigger] init[i] == entries[i] by {}
        if keep_entries(init, layer, experts) is Err {
            let i = choose|i: int|
                0 <= i < init.len() && !((#[trigger] init[i]).unsigned() is Some
                    && init[i].unsigned()->Some_0 < experts);
            assert(entries[i] == init[i]);
        } else {
            assert forall|i: int| 0 <= i < init.len() implies ((
            #[trigger] entries[i]).unsigned() is Some && entries[i].unsigned()->Some_0
                < experts) by {
                assert(init[i] == entries[i]);
            }
        }
    }
}

/// The rows of a plan are taken for the layers in whose places they stand: each
/// layer keeps what its own row names.
pub proof fn layers_keep_their_rows(rows: Seq<JsonV>, kept: nat, experts: usize)
    requires
        keep_rows(rows, kept, experts) is Ok,
    ensures
        ({
            let k = keep_rows(rows, kept, experts)->Ok_0;
            &&& k.len() == rows.len()
            &&& forall|l: int|
                0 <= l < rows.len() ==> {
                    &&& (#[trigger] rows[l]).items() is Some
                    &&& rows[l].items()->Some_0.len() == kept
                    &&& k[l].len() == kept
                    &&& forall|i: int|
                        0 <= i < kept ==> #[trigger] k[l][i]
                            == rows[l].items()->Some_0[i].unsigned()->Some_0 as u32
                }
        }),
    decreases rows.len(),
{
    if rows.len() > 0 {
        let init = rows.drop_last();
        layers_keep_their_rows(init, kept, experts);
        let (done, k) = (keep_rows(init, kept, experts)->Ok_0, keep_rows(rows, kept, experts)->Ok_0);
        let last = rows.len() - 1;
        assert(rows.last() == rows[last]);
        rows_name_their_experts(rows[last].items()->Some_0, last as nat, experts);
        assert forall|l: int| 0 <= l < rows.len() implies {
            &&& (#[trigger] rows[l]).items() is Some
            &&& rows[l].items()->Some_0.len() == kept
            &&& k[l].len() == kept
            &&& forall|i: int|
                0 <= i < kept ==> #[trigger] k[l][i]
                    == rows[l].items()->Some_0[i].unsigned()->Some_0 as u32
        } by {
            if l < last {
                assert(init[l] == rows[l]);
                assert(k[l] == done[l]);
            }
        }
    }
}

/// An override that is taken says what its members say: the layer, the role and
/// the tier that it names, and its experts in their order, none where it lists
/// none.
pub proof fn overrides_say_what_they_name(o: JsonV, i: nat, layers: usize, experts: usize)
    requires
        override_of(o, i, layers, experts) is Ok,
    ensures
        ({
            let taken = override_of(o, i, layers, experts)->Ok_0;
            &&& o.member_unsigned("layer"@) matches Some(l) && taken.layer == l && l < layers
            &&& o.member_text("role"@) matches Some(name) && role_named(name) == Some(taken.role)
            &&& o.member_text("tier"@) == Some(taken.tier)
            &&& o.member_items("experts"@) is None ==> taken.experts.len() == 0
            &&& o.member_items("experts"@) matches Some(a) ==> taken.experts.len() == a.len()
            &&& taken.experts.len() > 0 ==> taken.role == Role::RoutedExperts
        }),
{
    let entries = match o.member_items("experts"@) {
        Some(a) => a,
        None => Seq::empty(),
    };
    listed_experts(entries, i, experts);
}

proof fn listed_experts(entries: Seq<JsonV>, i: nat, experts: usize)
    ensures
        override_experts(entries, i, experts) matches Ok(list) ==> {
            &&& list.len() == entries.len()
            &&& forall|k: int|
                0 <= k < list.len() ==> #[trigger] list[k]
                    == entries[k].unsigned()->Some_0 as u32
        },
    decreases entries.len(),
{
    if entries.len() > 0 {
        listed_experts(entries.drop_last(), i, experts);
    }
}

/// A plan is taken only for a model of as many layers and experts as it names,
/// and keeps every expert where it names no rows.
pub proof fn plans_are_of_their_model(plan: JsonV, dir: Seq<char>, layers: usize, experts: usize)
    requires
        plan_of(plan, dir, layers, experts) is Ok,
    ensures
        plan.member_unsigned("original_experts"@) matches Some(n) ==> n == experts,
        plan.member_unsigned("num_layers"@) matches Some(n) ==> n == layers,
        plan.member("keep"@) is None ==> plan_of(plan, dir, layers, experts)->Ok_0.keep is None,
        plan.member_items("quant_overrides"@) is None ==> plan_of(
            plan,
            dir,
            layers,
            experts,
        )->Ok_0.quant_overrides.len() == 0,
        plan_of(plan, dir, layers, experts)->Ok_0.dir == dir,
        plan_of(plan, dir, layers, experts)->Ok_0.model_arch == plan.member_text("model_arch"@),
{
}

/// As many experts are kept as a row names, where rows of one length are named,
/// and all of them where none are.
pub proof fn rows_say_how_many_are_kept(plan: &ReapPlan, layer: int)
    ensures
        plan.keep is None ==> plan.kept() == plan.original_experts,
        plan.keep matches Some(k) ==> (0 <= layer < k@.len() && (forall|l: int|
            0 <= l < k@.len() ==> (#[trigger] k@[l])@.len() == k@[layer]@.len()) ==> plan.kept()
            == k@[layer]@.len()),
{
}

} // verus!
