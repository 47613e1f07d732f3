//! The quantisation section of a model's `config.json`.
//!
//! Two producers write it, with the scheme under `quant_method`, a label under
//! `quant_algo` or inside the first weight group, and the modules that stay
//! unquantised under `ignore` or `exclude_modules`.

use vstd::prelude::*;

use crate::json::{field, item_views, text_field, text_in, unsigned_in, Json, JsonView};
use crate::text::str_is;

verus! {

/// How a checkpoint is quantised.
#[derive(Debug)]
pub struct QuantizationConfig {
    pub quant_method: String,
    pub quant_algo: String,
    pub format: String,
    /// The modules that stay unquantised.
    pub ignore_modules: Vec<String>,
}

/// The field of a field.
pub open spec fn inner(v: Option<JsonView>, key: Seq<char>) -> Option<JsonView> {
    match v {
        Some(x) => field(x, key),
        None => None,
    }
}

/// The weights of the first group.
pub open spec fn group_weights(qc: JsonView) -> Option<JsonView> {
    inner(inner(field(qc, "config_groups"@), "group_0"@), "weights"@)
}

/// The label that the first weight group comes to.
pub open spec fn group_label(qc: JsonView) -> Seq<char> {
    let bits = match inner(group_weights(qc), "num_bits"@) {
        Some(v) => unsigned_in(v),
        None => None,
    };
    let ty = match inner(group_weights(qc), "type"@) {
        Some(v) => text_in(v),
        None => None,
    };
    if ty == Some("float"@) && bits == Some(4u64) {
        "NVFP4"@
    } else if ty == Some("float"@) && bits == Some(8u64) {
        "FP8"@
    } else {
        ""@
    }
}

/// The text under a key; empty where there is none.
pub open spec fn text_or_empty(qc: JsonView, key: Seq<char>) -> Seq<char> {
    match text_field(qc, key) {
        Some(s) => s,
        None => ""@,
    }
}

/// The label of the scheme.
pub open spec fn algo_of(qc: JsonView) -> Seq<char> {
    match text_field(qc, "quant_algo"@) {
        Some(s) => s,
        None => group_label(qc),
    }
}

/// The elements of the array under a key.
pub open spec fn array_at(qc: JsonView, key: Seq<char>) -> Seq<JsonView> {
    match field(qc, key) {
        Some(JsonView::Array(v)) => v,
        _ => Seq::empty(),
    }
}

/// The texts among `vs`, in order.
pub open spec fn texts(vs: Seq<JsonView>) -> Seq<Seq<char>>
    decreases vs.len(),
{
    if vs.len() == 0 {
        Seq::empty()
    } else {
        match text_in(vs.last()) {
            Some(s) => texts(vs.drop_last()).push(s),
            None => texts(vs.drop_last()),
        }
    }
}

/// `have`, and behind it the texts among `vs` that it has not yet.
pub open spec fn with_new_texts(have: Seq<Seq<char>>, vs: Seq<JsonView>) -> Seq<Seq<char>>
    decreases vs.len(),
{
    if vs.len() == 0 {
        have
    } else {
        let rest = with_new_texts(have, vs.drop_last());
        match text_in(vs.last()) {
            Some(s) => if rest.contains(s) { rest } else { rest.push(s) },
            None => rest,
        }
    }
}

/// The modules that stay unquantised: all that `ignore` names, and behind them
/// those of `exclude_modules` that are not there yet.
pub open spec fn ignored(qc: JsonView) -> Seq<Seq<char>> {
    with_new_texts(texts(array_at(qc, "ignore"@)), array_at(qc, "exclude_modules"@))
}

pub open spec fn strings(v: Seq<String>) -> Seq<Seq<char>> {
    Seq::new(v.len(), |i: int| v[i]@)
}

/// The section says nothing: no scheme, no label, no module.
pub open spec fn says_nothing(qc: JsonView) -> bool {
    text_or_empty(qc, "quant_method"@).len() == 0 && algo_of(qc).len() == 0 && ignored(qc).len() == 0
}

fn text_or(qc: &Json, key: &str) -> (r: String)
    ensures
        r@ == text_or_empty(qc@, key@),
{
    match qc.text_at(key) {
        Some(s) => s.to_owned(),
        None => "".to_owned(),
    }
}

/// The label of the first weight group, as far as the group is written out.
fn read_group(qc: &Json) -> (r: &'static str)
    ensures
        r@ == group_label(qc@),
{
    let groups = match qc.get("config_groups") {
        Some(v) => v,
        None => {
            return "";
        },
    };
    let group = match groups.get("group_0") {
        Some(v) => v,
        None => {
            return "";
        },
    };
    let weights = match group.get("weights") {
        Some(v) => v,
        None => {
            return "";
        },
    };
    let bits = match weights.get("num_bits") {
        Some(v) => v.as_u64(),
        None => None,
    };
    let float = match weights.text_at("type") {
        Some(s) => str_is(s, "float"),
        None => false,
    };
    match bits {
        Some(4) => if float { "NVFP4" } else { "" },
        Some(8) => if float { "FP8" } else { "" },
        _ => "",
    }
}

fn has_text(v: &Vec<String>, s: &str) -> (r: bool)
    ensures
        r == strings(v@).contains(s@),
{
    let mut i: usize = 0;
    while i < v.len()
        invariant
            i <= v@.len(),
            forall|j: int| 0 <= j < i ==> #[trigger] v@[j]@ != s@,
        decreases v@.len() - i,
    {
        if str_is(v[i].as_str(), s) {
            assert(strings(v@)[i as int] == s@);
            return true;
        }
        i += 1;
    }
    assert(!strings(v@).contains(s@)) by {
        if strings(v@).contains(s@) {
            let j = choose|j: int| 0 <= j < strings(v@).len() && strings(v@)[j] == s@;
            assert(v@[j]@ == s@);
        }
    }
    false
}

fn push_texts(out: &mut Vec<String>, vs: &Vec<Json>, only_new: bool)
    ensures
        only_new ==> strings(final(out)@) == with_new_texts(strings(old(out)@), item_views(vs@)),
        !only_new ==> strings(final(out)@) == strings(old(out)@) + texts(item_views(vs@)),
{
    let ghost have = strings(out@);
    let ghost views = item_views(vs@);
    let mut i: usize = 0;
    assert(views.take(0) =~= Seq::empty());
    assert(have =~= have + texts(views.take(0)));
    while i < vs.len()
        invariant
            i <= vs@.len(),
            views == item_views(vs@),
            only_new ==> strings(out@) == with_new_texts(have, views.take(i as int)),
            !only_new ==> strings(out@) == have + texts(views.take(i as int)),
        decreases vs@.len() - i,
    {
        let ghost now = views.take(i + 1);
        let ghost before = strings(out@);
        assert(now.drop_last() =~= views.take(i as int));
        assert(now.last() == vs@[i as int]@);
        if let Some(s) = vs[i].as_str() {
            if !only_new || !has_text(out, s) {
                out.push(s.to_owned());
                assert(strings(out@) =~= before.push(s@));
            }
        }
        i += 1;
        assert(!only_new ==> strings(out@) =~= have + texts(views.take(i as int)));
    }
    assert(views.take(i as int) =~= views);
}

/// Reads the quantisation section of a configuration. There is none where the
/// section is missing or says nothing.
pub fn parse_quantization_config(raw: &Json) -> (r: Option<QuantizationConfig>)
    ensures
        match r {
            None => field(raw@, "quantization_config"@) matches Some(qc) ==> says_nothing(qc),
            Some(c) => {
                &&& field(raw@, "quantization_config"@) matches Some(qc)
                &&& !says_nothing(qc)
                &&& c.quant_method@ == text_or_empty(qc, "quant_method"@)
                &&& c.quant_algo@ == algo_of(qc)
                &&& c.format@ == text_or_empty(qc, "format"@)
                &&& strings(c.ignore_modules@) == ignored(qc)
            },
        },
{
    let qc = match raw.get("quantization_config") {
        Some(v) => v,
        None => {
            return None;
        },
    };
    let quant_method = text_or(qc, "quant_method");
    let quant_algo = match qc.text_at("quant_algo") {
        Some(s) => s.to_owned(),
        None => read_group(qc).to_owned(),
    };
    let format = text_or(qc, "format");
    let mut ignore_modules: Vec<String> = Vec::new();
    assert(strings(ignore_modules@) =~= Seq::empty());
    assert(array_at(qc@, "ignore"@).len() == 0 ==> texts(array_at(qc@, "ignore"@)) =~= Seq::empty());
    if let Some(v) = qc.get("ignore") {
        if let Some(arr) = v.as_array() {
            push_texts(&mut ignore_modules, arr, false);
            assert(Seq::<Seq<char>>::empty() + texts(item_views(arr@)) =~= texts(item_views(arr@)));
        }
    }
    assert(strings(ignore_modules@) == texts(array_at(qc@, "ignore"@)));
    if let Some(v) = qc.get("exclude_modules") {
        if let Some(arr) = v.as_array() {
            push_texts(&mut ignore_modules, arr, true);
        }
    }
    assert(strings(ignore_modules@) == ignored(qc@));
    assert(strings(ignore_modules@).len() == ignore_modules@.len());
    if quant_method.as_str().is_empty() && quant_algo.as_str().is_empty() && ignore_modules.len() == 0 {
        return None;
    }
    Some(QuantizationConfig { quant_method, quant_algo, format, ignore_modules })
}

/// A module that `exclude_modules` brings in is not one that is there already.
pub proof fn excluded_modules_come_once(have: Seq<Seq<char>>, vs: Seq<JsonView>)
    requires
        have.no_duplicates(),
    ensures
        with_new_texts(have, vs).no_duplicates(),
    decreases vs.len(),
{
    if vs.len() > 0 {
        excluded_modules_come_once(have, vs.drop_last());
        let rest = with_new_texts(have, vs.drop_last());
        if let Some(s) = text_in(vs.last()) {
            if !rest.contains(s) {
                let all = rest.push(s);
                assert forall|i: int, j: int| 0 <= i < all.len() && 0 <= j < all.len() && i != j implies all[i]
                    != all[j] by {
                    if i < rest.len() && j < rest.len() {
                        assert(rest[i] != rest[j]);
                    } else if i < rest.len() {
                        assert(rest.contains(rest[i]));
                    } else {
                        assert(rest.contains(rest[j]));
                    }
                }
            }
        }
    }
}

} // verus!
