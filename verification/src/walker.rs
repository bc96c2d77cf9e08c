use vstd::prelude::*;
use crate::deserializer::{
    payload_text, payload_to_string, store_view, stores_view, JsonStore, StoreView,
};
use crate::text::push_char;

verus! {

/// The indentation of a line at nesting level `level`: `level + 1` copies
/// of the indent character.
pub open spec fn indent_text(ch: char, level: nat) -> Seq<char> {
    Seq::new(level + 1, |_i: int| ch)
}

/// Whether a store's children are left out of the view: only where hiding
/// is asked for and the field is `VailWorldSim`.
pub open spec fn hides_children(field: Seq<char>, hide_vail: bool) -> bool {
    hide_vail && field == "VailWorldSim"@
}

/// The lines of an indented walk over stores, in order: for each store, a
/// line `indent field: payload` where it has a payload, then, where it has
/// children that are not hidden, a line `indent field:` followed by the
/// lines of its children one level deeper.
pub open spec fn walk_lines(stores: Seq<StoreView>, ch: char, level: nat, hide_vail: bool) -> Seq<
    Seq<char>,
>
    decreases stores,
{
    if stores.len() == 0 {
        seq![]
    } else {
        walk_lines(stores.drop_last(), ch, level, hide_vail) + store_lines(
            stores.last(),
            ch,
            level,
            hide_vail,
        )
    }
}

pub open spec fn store_lines(s: StoreView, ch: char, level: nat, hide_vail: bool) -> Seq<Seq<char>>
    decreases s,
{
    let indent = indent_text(ch, level);
    let payload_part = match s.payload {
        Some(v) => seq![indent + s.field + ": "@ + payload_text(v)],
        None => seq![],
    };
    let children_part = match s.children {
        Some(cs) => if hides_children(s.field, hide_vail) {
            seq![]
        } else {
            seq![indent + s.field + seq![':']] + walk_lines(cs, ch, level + 1, hide_vail)
        },
        None => seq![],
    };
    payload_part + children_part
}

/// How many levels deeper than its start a walk over `stores` goes.
pub open spec fn nest_depth(stores: Seq<StoreView>, hide_vail: bool) -> nat
    decreases stores,
{
    if stores.len() == 0 {
        0
    } else {
        let a = nest_depth(stores.drop_last(), hide_vail);
        let b = store_depth(stores.last(), hide_vail);
        if a < b {
            b
        } else {
            a
        }
    }
}

pub open spec fn store_depth(s: StoreView, hide_vail: bool) -> nat
    decreases s,
{
    match s.children {
        Some(cs) => if hides_children(s.field, hide_vail) {
            0
        } else {
            1 + nest_depth(cs, hide_vail)
        },
        None => 0,
    }
}

/// The counter after a walk: one less than before, but never below zero.
pub open spec fn counter_after(c: u128) -> u128 {
    if c > 0 {
        (c - 1) as u128
    } else {
        0
    }
}

pub open spec fn lines_view(lines: Seq<String>) -> Seq<Seq<char>> {
    lines.map_values(|l: String| l@)
}

pub proof fn lemma_stores_view_index(s: Seq<JsonStore>, i: int)
    requires
        0 <= i < s.len(),
    ensures
        stores_view(s).len() == s.len(),
        stores_view(s)[i] == store_view(s[i]),
    decreases s.len(),
{
    if i < s.len() - 1 {
        lemma_stores_view_index(s.drop_last(), i);
    } else {
        lemma_stores_view_len(s.drop_last());
    }
}

pub proof fn lemma_stores_view_len(s: Seq<JsonStore>)
    ensures
        stores_view(s).len() == s.len(),
    decreases s.len(),
{
    if s.len() > 0 {
        lemma_stores_view_len(s.drop_last());
    }
}

proof fn lemma_store_depth_bound(stores: Seq<StoreView>, hide_vail: bool, i: int)
    requires
        0 <= i < stores.len(),
    ensures
        store_depth(stores[i], hide_vail) <= nest_depth(stores, hide_vail),
    decreases stores.len(),
{
    if i < stores.len() - 1 {
        lemma_store_depth_bound(stores.drop_last(), hide_vail, i);
    }
}

/// No store of the tree named `VailWorldSim` has children.
pub open spec fn no_vail_children(stores: Seq<StoreView>) -> bool
    decreases stores,
{
    if stores.len() == 0 {
        true
    } else {
        no_vail_children(stores.drop_last()) && store_no_vail_children(stores.last())
    }
}

pub open spec fn store_no_vail_children(s: StoreView) -> bool
    decreases s,
{
    match s.children {
        Some(cs) => s.field != "VailWorldSim"@ && no_vail_children(cs),
        None => true,
    }
}

/// Law: where no `VailWorldSim` store of the tree has children, the
/// viewer's walk and the printed walk give the same lines and go equally
/// deep.
pub proof fn lemma_viewer_matches_walker(stores: Seq<StoreView>, ch: char, level: nat)
    requires
        no_vail_children(stores),
    ensures
        walk_lines(stores, ch, level, true) == walk_lines(stores, ch, level, false),
        nest_depth(stores, true) == nest_depth(stores, false),
    decreases stores,
{
    if stores.len() > 0 {
        lemma_viewer_matches_walker(stores.drop_last(), ch, level);
        lemma_store_viewer_matches_walker(stores.last(), ch, level);
    }
}

proof fn lemma_store_viewer_matches_walker(s: StoreView, ch: char, level: nat)
    requires
        store_no_vail_children(s),
    ensures
        store_lines(s, ch, level, true) == store_lines(s, ch, level, false),
        store_depth(s, true) == store_depth(s, false),
    decreases s,
{
    match s.children {
        Some(cs) => {
            lemma_viewer_matches_walker(cs, ch, level + 1);
        },
        None => {},
    }
}

/// The indentation string for nesting level `counter`.
fn indent_string(ch: char, counter: u128) -> (r: String)
    ensures
        r@ == indent_text(ch, counter as nat),
{
    let mut s = String::new();
    push_char(&mut s, ch);
    let mut n: u128 = 0;
    while n < counter
        invariant
            n <= counter,
            s@ == indent_text(ch, n as nat),
        decreases counter - n,
    {
        push_char(&mut s, ch);
        n = n + 1;
        proof {
            assert(s@ =~= indent_text(ch, n as nat));
        }
    }
    s
}

fn push_line(lines: &mut Vec<String>, line: String)
    ensures
        lines_view(final(lines)@) == lines_view(old(lines)@).push(line@),
{
    lines.push(line);
    proof {
        assert(lines_view(lines@) =~= lines_view(old(lines)@).push(line@));
    }
}

/// Appends the lines of an indented walk over `json_stores` to `lines`
/// (see [`walk_lines`]) and moves the counter one level back up.
fn walk_stores(
    json_stores: &Vec<JsonStore>,
    indent_char: char,
    indent_counter: &mut u128,
    hide_vail: bool,
    lines: &mut Vec<String>,
)
    requires
        *old(indent_counter) + nest_depth(stores_view(json_stores@), hide_vail) <= u128::MAX,
    ensures
        lines_view(final(lines)@) == lines_view(old(lines)@) + walk_lines(
            stores_view(json_stores@),
            indent_char,
            *old(indent_counter) as nat,
            hide_vail,
        ),
        *final(indent_counter) == counter_after(*old(indent_counter)),
    decreases json_stores@,
{
    let ghost level = *indent_counter;
    let ghost sv = stores_view(json_stores@);
    let ghost start = lines_view(lines@);
    let vail = "VailWorldSim".to_owned();
    proof {
        lemma_stores_view_len(json_stores@);
    }
    let mut i: usize = 0;
    while i < json_stores.len()
        invariant
            i <= json_stores@.len(),
            sv == stores_view(json_stores@),
            sv.len() == json_stores@.len(),
            *indent_counter == level,
            level + nest_depth(sv, hide_vail) <= u128::MAX,
            vail@ == "VailWorldSim"@,
            lines_view(lines@) == start + walk_lines(sv.take(i as int), indent_char, level as nat, hide_vail),
        decreases json_stores@.len() - i,
    {
        let j = &json_stores[i];
        proof {
            lemma_stores_view_index(json_stores@, i as int);
            lemma_store_depth_bound(sv, hide_vail, i as int);
        }
        let ghost before = lines_view(lines@);
        let indent = indent_string(indent_char, *indent_counter);
        if let Some(p) = &j.payload {
            let mut line = indent.clone();
            line.append(j.field.as_str());
            line.append(": ");
            let text = payload_to_string(p);
            line.append(text.as_str());
            push_line(lines, line);
        }
        let ghost sj = sv[i as int];
        let ghost indent_v = indent_text(indent_char, level as nat);
        let ghost payload_part = match sj.payload {
            Some(v) => seq![indent_v + sj.field + ": "@ + payload_text(v)],
            None => Seq::<Seq<char>>::empty(),
        };
        assert(lines_view(lines@) =~= before + payload_part);
        let ghost mid = lines_view(lines@);
        if let Some(cs) = &j.children {
            if !(hide_vail && j.field == vail) {
                let mut line = indent.clone();
                line.append(j.field.as_str());
                push_char(&mut line, ':');
                assert(line@ =~= indent_v + sj.field + seq![':']);
                push_line(lines, line);
                let ghost mid2 = lines_view(lines@);
                assert(mid2 == mid.push(indent_v + sj.field + seq![':']));
                *indent_counter = *indent_counter + 1;
                walk_stores(cs, indent_char, indent_counter, hide_vail, lines);
                assert(sj.children == Some(stores_view(cs@)));
                assert(!hides_children(sj.field, hide_vail));
                assert(lines_view(lines@) == mid2 + walk_lines(stores_view(cs@), indent_char, (level + 1) as nat, hide_vail));
            } else {
                assert(hides_children(sj.field, hide_vail));
            }
        }
        let ghost children_part = match sj.children {
            Some(c) => if hides_children(sj.field, hide_vail) {
                Seq::<Seq<char>>::empty()
            } else {
                seq![indent_v + sj.field + seq![':']] + walk_lines(c, indent_char, (level + 1) as nat, hide_vail)
            },
            None => Seq::<Seq<char>>::empty(),
        };
        assert(lines_view(lines@) =~= mid + children_part);
        proof {
            assert(sv.take(i + 1).drop_last() =~= sv.take(i as int));
            assert(sv.take(i + 1).last() == sv[i as int]);
            assert(lines_view(lines@) =~= before + store_lines(sv[i as int], indent_char, level as nat, hide_vail));
        }
        i = i + 1;
    }
    proof {
        assert(sv.take(sv.len() as int) =~= sv);
    }
    if *indent_counter > 0 {
        *indent_counter = *indent_counter - 1;
    }
}


/// The lines that [`recursive_json_walker`] prints for `json_stores`,
/// starting at nesting level `indent_counter`: for each store, its payload
/// line (`indent field: payload`) and, where it has children, its heading
/// line (`indent field:`) followed by its children's lines one level
/// deeper; the indent is `indent_counter + 1` copies of `indent_char`.
/// The counter ends one lower than it started (not below zero).
pub fn recursive_json_walker(
    json_stores: &Vec<JsonStore>,
    indent_char: char,
    indent_counter: &mut u128,
) -> (lines: Vec<String>)
    requires
        *old(indent_counter) + nest_depth(stores_view(json_stores@), false) <= u128::MAX,
    ensures
        lines_view(lines@) == walk_lines(
            stores_view(json_stores@),
            indent_char,
            *old(indent_counter) as nat,
            false,
        ),
        *final(indent_counter) == counter_after(*old(indent_counter)),
{
    let mut lines: Vec<String> = Vec::new();
    walk_stores(json_stores, indent_char, indent_counter, false, &mut lines);
    proof {
        assert(lines_view(Seq::<String>::empty()) =~= Seq::<Seq<char>>::empty());
        assert(Seq::<Seq<char>>::empty() + walk_lines(stores_view(json_stores@), indent_char, *old(indent_counter) as nat, false)
            =~= walk_lines(stores_view(json_stores@), indent_char, *old(indent_counter) as nat, false));
    }
    lines
}

/// The lines of the walk that hides `VailWorldSim` children, as the
/// viewer shows them (see [`walk_lines`] with hiding on).
pub(crate) fn viewer_lines(
    json_stores: &Vec<JsonStore>,
    indent_char: char,
    indent_counter: &mut u128,
) -> (lines: Vec<String>)
    requires
        *old(indent_counter) + nest_depth(stores_view(json_stores@), true) <= u128::MAX,
    ensures
        lines_view(lines@) == walk_lines(
            stores_view(json_stores@),
            indent_char,
            *old(indent_counter) as nat,
            true,
        ),
        *final(indent_counter) == counter_after(*old(indent_counter)),
{
    let mut lines: Vec<String> = Vec::new();
    walk_stores(json_stores, indent_char, indent_counter, true, &mut lines);
    proof {
        assert(lines_view(Seq::<String>::empty()) =~= Seq::<Seq<char>>::empty());
        assert(Seq::<Seq<char>>::empty() + walk_lines(stores_view(json_stores@), indent_char, *old(indent_counter) as nat, true)
            =~= walk_lines(stores_view(json_stores@), indent_char, *old(indent_counter) as nat, true));
    }
    lines
}

pub open spec fn bool_text(b: bool) -> Seq<char> {
    if b {
        "true"@
    } else {
        "false"@
    }
}

/// The lines of the summary walk, in order: for each store a line
/// `Field: f, Contains Payload?: b, Contains Children?: b`, then
/// `Payload: text` where it has a payload, then `Zooming into f` and the
/// children's lines where it has children.
pub open spec fn summary_lines(stores: Seq<StoreView>) -> Seq<Seq<char>>
    decreases stores,
{
    if stores.len() == 0 {
        seq![]
    } else {
        summary_lines(stores.drop_last()) + store_summary(stores.last())
    }
}

pub open spec fn store_summary(s: StoreView) -> Seq<Seq<char>>
    decreases s,
{
    let head = "Field: "@ + s.field + ", Contains Payload?: "@ + bool_text(s.payload is Some)
        + ", Contains Children?: "@ + bool_text(s.children is Some);
    let payload_part = match s.payload {
        Some(v) => seq!["Payload: "@ + payload_text(v)],
        None => seq![],
    };
    let children_part = match s.children {
        Some(cs) => seq!["Zooming into "@ + s.field] + summary_lines(cs),
        None => seq![],
    };
    seq![head] + payload_part + children_part
}

fn bool_string(b: bool) -> (r: String)
    ensures
        r@ == bool_text(b),
{
    if b {
        "true".to_owned()
    } else {
        "false".to_owned()
    }
}

fn summarize_stores(json_stores: &Vec<JsonStore>, lines: &mut Vec<String>)
    ensures
        lines_view(final(lines)@) == lines_view(old(lines)@) + summary_lines(
            stores_view(json_stores@),
        ),
    decreases json_stores@,
{
    let ghost sv = stores_view(json_stores@);
    let ghost start = lines_view(lines@);
    proof {
        lemma_stores_view_len(json_stores@);
    }
    let mut i: usize = 0;
    while i < json_stores.len()
        invariant
            i <= json_stores@.len(),
            sv == stores_view(json_stores@),
            sv.len() == json_stores@.len(),
            lines_view(lines@) == start + summary_lines(sv.take(i as int)),
        decreases json_stores@.len() - i,
    {
        let j = &json_stores[i];
        proof {
            lemma_stores_view_index(json_stores@, i as int);
        }
        let ghost sj = sv[i as int];
        let ghost before = lines_view(lines@);
        let mut head = "Field: ".to_owned();
        head.append(j.field.as_str());
        head.append(", Contains Payload?: ");
        let has_payload = bool_string(j.payload.is_some());
        head.append(has_payload.as_str());
        head.append(", Contains Children?: ");
        let has_children = bool_string(j.children.is_some());
        head.append(has_children.as_str());
        push_line(lines, head);
        if let Some(p) = &j.payload {
            let mut line = "Payload: ".to_owned();
            let text = payload_to_string(p);
            line.append(text.as_str());
            push_line(lines, line);
        }
        if let Some(cs) = &j.children {
            let mut line = "Zooming into ".to_owned();
            line.append(j.field.as_str());
            push_line(lines, line);
            summarize_stores(cs, lines);
        }
        proof {
            assert(sv.take(i + 1).drop_last() =~= sv.take(i as int));
            assert(sv.take(i + 1).last() == sj);
            assert(lines_view(lines@) =~= before + store_summary(sj));
        }
        i = i + 1;
    }
    proof {
        assert(sv.take(sv.len() as int) =~= sv);
    }
}

/// The lines of the summary walk over `store` (see [`summary_lines`]).
pub fn json_store_walker(store: &Vec<JsonStore>) -> (lines: Vec<String>)
    ensures
        lines_view(lines@) == summary_lines(stores_view(store@)),
{
    let mut lines: Vec<String> = Vec::new();
    summarize_stores(store, &mut lines);
    proof {
        assert(lines_view(Seq::<String>::empty()) =~= Seq::<Seq<char>>::empty());
        assert(Seq::<Seq<char>>::empty() + summary_lines(stores_view(store@)) =~= summary_lines(stores_view(store@)));
    }
    lines
}


/// Law: the walk over stores is the walks over its parts, in order.
pub proof fn lemma_walk_lines_splice(a: Seq<StoreView>, b: Seq<StoreView>, ch: char, level: nat, hide_vail: bool)
    ensures
        walk_lines(a + b, ch, level, hide_vail) == walk_lines(a, ch, level, hide_vail) + walk_lines(
            b,
            ch,
            level,
            hide_vail,
        ),
    decreases b.len(),
{
    if b.len() == 0 {
        assert(a + b =~= a);
        assert(walk_lines(a, ch, level, hide_vail) + walk_lines(b, ch, level, hide_vail) =~= walk_lines(a, ch, level, hide_vail));
    } else {
        lemma_walk_lines_splice(a, b.drop_last(), ch, level, hide_vail);
        assert((a + b).drop_last() =~= a + b.drop_last());
        assert((a + b).last() == b.last());
        assert(walk_lines(a + b, ch, level, hide_vail) =~= walk_lines(a, ch, level, hide_vail) + walk_lines(b, ch, level, hide_vail));
    }
}

/// Law: the summary of stores is the summaries of its parts, in order.
pub proof fn lemma_summary_lines_splice(a: Seq<StoreView>, b: Seq<StoreView>)
    ensures
        summary_lines(a + b) == summary_lines(a) + summary_lines(b),
    decreases b.len(),
{
    if b.len() == 0 {
        assert(a + b =~= a);
        assert(summary_lines(a) + summary_lines(b) =~= summary_lines(a));
    } else {
        lemma_summary_lines_splice(a, b.drop_last());
        assert((a + b).drop_last() =~= a + b.drop_last());
        assert((a + b).last() == b.last());
        assert(summary_lines(a + b) =~= summary_lines(a) + summary_lines(b));
    }
}

/// Law: the indentation at nesting level `n` is exactly `n + 1` copies of
/// the indent character, one more than at level `n - 1`.
pub proof fn lemma_indent_depth(ch: char, level: nat)
    ensures
        indent_text(ch, level).len() == level + 1,
        forall|i: int| 0 <= i < level + 1 ==> #[trigger] indent_text(ch, level)[i] == ch,
        indent_text(ch, level + 1) == indent_text(ch, level).push(ch),
{
    assert(indent_text(ch, level + 1) =~= indent_text(ch, level).push(ch));
}

/// Law: a store with a payload opens its lines with `level + 1` indent
/// characters, its field, `: ` and the payload's text; a store without a
/// payload but with shown children opens with the indent, its field and
/// `:`, and its children's lines follow one character deeper.
pub proof fn lemma_store_first_line(s: StoreView, ch: char, level: nat, hide_vail: bool)
    ensures
        s.payload matches Some(v) ==> {
            let line = store_lines(s, ch, level, hide_vail)[0];
            &&& store_lines(s, ch, level, hide_vail).len() >= 1
            &&& line.len() == level + 1 + s.field.len() + 2 + payload_text(v).len()
            &&& forall|i: int| 0 <= i < level + 1 ==> #[trigger] line[i] == ch
            &&& line.subrange(level + 1int, level + 1int + s.field.len()) == s.field
            &&& line.skip(level + 1int + s.field.len() + 2) == payload_text(v)
        },
        s.payload is None && s.children is Some && !hides_children(s.field, hide_vail) ==> {
            let line = store_lines(s, ch, level, hide_vail)[0];
            &&& store_lines(s, ch, level, hide_vail) == seq![line] + walk_lines(
                s.children->0,
                ch,
                level + 1,
                hide_vail,
            )
            &&& line == indent_text(ch, level) + s.field + seq![':']
        },
{
    lemma_indent_depth(ch, level);
    match s.payload {
        Some(v) => {
            let line = indent_text(ch, level) + s.field + ": "@ + payload_text(v);
            assert(store_lines(s, ch, level, hide_vail)[0] == line);
            reveal_strlit(": ");
            assert(line.subrange(level + 1int, level + 1int + s.field.len()) =~= s.field);
            assert(line.skip(level + 1int + s.field.len() + 2) =~= payload_text(v));
        },
        None => {
            if s.children is Some && !hides_children(s.field, hide_vail) {
                assert(store_lines(s, ch, level, hide_vail) =~= seq![
                    indent_text(ch, level) + s.field + seq![':'],
                ] + walk_lines(s.children->0, ch, level + 1, hide_vail));
            }
        },
    }
}

/// Law: a store's summary is its `Field:` line, then exactly one
/// `Payload: ` line where it has a payload (whatever the payload's text,
/// empty included), then a `Zooming into` line and its children's summary
/// where it has children.
pub proof fn lemma_store_summary_shape(s: StoreView)
    ensures
        store_summary(s).len() == 1 + (if s.payload is Some {
            1int
        } else {
            0int
        }) + match s.children {
            Some(cs) => 1int + summary_lines(cs).len(),
            None => 0int,
        },
        store_summary(s)[0] == "Field: "@ + s.field + ", Contains Payload?: "@ + bool_text(
            s.payload is Some,
        ) + ", Contains Children?: "@ + bool_text(s.children is Some),
        s.payload matches Some(v) ==> store_summary(s)[1] == "Payload: "@ + payload_text(v),
        s.children matches Some(cs) ==> store_summary(s)[if s.payload is Some {
            2int
        } else {
            1int
        }] == "Zooming into "@ + s.field,
{
}

} // verus!
