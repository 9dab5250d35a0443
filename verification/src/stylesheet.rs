//! The stylesheet compiler: from a set of class names to the text of the rules
//! that they stand for, in ascending order of the names.

use crate::classes::{in_order, lemma_in_order, lemma_order_of_finite, ClassSet};
use crate::order::{ascending, lemma_ascending_no_duplicates, precedes};
use crate::rule::{resolve_chars, rule_for, RuleText};
use vstd::prelude::*;

verus! {

/// The reset block: fixed rules that even out what browsers do by default.
pub const RESET: &'static str = "\
*, ::before, ::after { box-sizing: border-box; }\n\
html { line-height: 1.5; -webkit-text-size-adjust: 100%; }\n\
body { margin: 0; }\n\
h1, h2, h3, h4, h5, h6 { font-size: inherit; font-weight: inherit; }\n\
p, blockquote, figure, pre { margin: 0; }\n\
a { color: inherit; text-decoration: inherit; }\n\
b, strong { font-weight: bolder; }\n\
ol, ul { list-style: none; margin: 0; padding: 0; }\n\
img, svg, video { display: block; max-width: 100%; height: auto; }\n\
button, input, select, textarea { font: inherit; color: inherit; margin: 0; }\n\
table { border-collapse: collapse; }\n";

/// The rules that `classes` stand for, one for each class that stands for
/// any, in the order of the classes.
pub open spec fn rules_of(classes: Seq<Seq<char>>) -> Seq<RuleText>
    decreases classes.len(),
{
    if classes.len() == 0 {
        Seq::empty()
    } else {
        let before = rules_of(classes.drop_last());
        match rule_for(classes.last()) {
            Some(rule) => before.push(rule),
            None => before,
        }
    }
}

/// The lines of `rules`, one after the other.
pub open spec fn lines(rules: Seq<RuleText>) -> Seq<char>
    decreases rules.len(),
{
    if rules.len() == 0 {
        Seq::empty()
    } else {
        lines(rules.drop_last()) + rules.last().line()
    }
}

/// The rules of the stylesheet for the class names `names`.
pub open spec fn rules_for(names: Set<Seq<char>>) -> Seq<RuleText> {
    rules_of(in_order(names))
}

/// What stands before the rules: the reset block or nothing.
pub open spec fn preamble(add_reset: bool) -> Seq<char> {
    if add_reset {
        RESET@
    } else {
        Seq::empty()
    }
}

/// The stylesheet for the class names `names`: the preamble, then the rules
/// of the names in ascending order.
pub open spec fn stylesheet(names: Set<Seq<char>>, add_reset: bool) -> Seq<char> {
    preamble(add_reset) + lines(rules_for(names))
}

/// The names that `classes` lists, in the order of the listing.
pub open spec fn listed(classes: Seq<&String>) -> Seq<Seq<char>> {
    classes.map_values(|class: &String| class@)
}

/// The set of the names that `classes` lists.
pub open spec fn names_of(classes: Seq<&String>) -> Set<Seq<char>> {
    listed(classes).to_set()
}

/// The selectors of `rules`, in order.
pub open spec fn selectors(rules: Seq<RuleText>) -> Seq<Seq<char>> {
    rules.map_values(|rule: RuleText| rule.selector)
}

/// A stylesheet has at most one rule for each class, and no rule without a
/// class: every rule is the rule of one of the classes. The selectors follow
/// the order of the classes, so where the classes ascend the selectors ascend
/// too, and none occurs twice.
pub proof fn lemma_rules_come_from_classes(classes: Seq<Seq<char>>)
    ensures
        rules_of(classes).len() <= classes.len(),
        forall|j: int|
            0 <= j < rules_of(classes).len() ==> exists|i: int|
                0 <= i < classes.len() && rule_for(classes[i]) == Some(
                    #[trigger] rules_of(classes)[j],
                ),
        ascending(classes) ==> ascending(selectors(rules_of(classes))),
        ascending(classes) ==> selectors(rules_of(classes)).no_duplicates(),
    decreases classes.len(),
{
    let rules = rules_of(classes);
    if classes.len() > 0 {
        let head = classes.drop_last();
        let before = rules_of(head);
        lemma_rules_come_from_classes(head);
        assert forall|j: int| 0 <= j < rules.len() implies exists|i: int|
            0 <= i < classes.len() && rule_for(classes[i]) == Some(#[trigger] rules[j]) by {
            if j < before.len() {
                let i = choose|i: int| 0 <= i < head.len() && rule_for(head[i]) == Some(before[j]);
                assert(classes[i] == head[i]);
            } else {
                assert(rule_for(classes[classes.len() - 1]) == Some(rules[j]));
            }
        }
        if ascending(classes) {
            assert(ascending(head)) by {
                assert forall|i: int, j: int| 0 <= i < j < head.len() implies precedes(
                    head[i],
                    head[j],
                ) by {
                    assert(precedes(classes[i], classes[j]));
                }
            }
            let names = selectors(rules);
            assert forall|j: int, k: int| 0 <= j < k < names.len() implies precedes(
                names[j],
                names[k],
            ) by {
                if k < before.len() {
                    assert(precedes(selectors(before)[j], selectors(before)[k]));
                } else {
                    let i = choose|i: int|
                        0 <= i < head.len() && rule_for(head[i]) == Some(before[j]);
                    assert(precedes(classes[i], classes.last()));
                    lemma_selector_order(classes[i], classes.last());
                }
            }
        }
    }
    if ascending(classes) {
        lemma_ascending_no_duplicates(selectors(rules));
    }
}

/// Selectors stand in the order of their class names.
pub proof fn lemma_selector_order(a: Seq<char>, b: Seq<char>)
    ensures
        precedes(seq!['.'] + a, seq!['.'] + b) == precedes(a, b),
{
    assert((seq!['.'] + a).skip(1) =~= a);
    assert((seq!['.'] + b).skip(1) =~= b);
}

/// The stylesheet for a set of class names has at most as many rules as the
/// set has names. Every rule is the rule of one of the names; the selectors
/// ascend, and none occurs twice.
pub proof fn lemma_stylesheet_rules(names: Set<Seq<char>>)
    requires
        names.finite(),
    ensures
        rules_for(names).len() <= names.len(),
        forall|j: int|
            0 <= j < rules_for(names).len() ==> exists|class: Seq<char>|
                names.contains(class) && rule_for(class) == Some(#[trigger] rules_for(names)[j]),
        ascending(selectors(rules_for(names))),
        selectors(rules_for(names)).no_duplicates(),
{
    let order = in_order(names);
    lemma_order_of_finite(names);
    lemma_rules_come_from_classes(order);
    assert forall|j: int| 0 <= j < rules_for(names).len() implies exists|class: Seq<char>|
        names.contains(class) && rule_for(class) == Some(#[trigger] rules_for(names)[j]) by {
        let i = choose|i: int|
            0 <= i < order.len() && rule_for(order[i]) == Some(rules_of(order)[j]);
        assert(order.to_set().contains(order[i]));
    }
}

/// The stylesheet for a listing of class names has at most as many rules as
/// the listing has entries.
pub proof fn lemma_listing_rules(classes: Seq<&String>)
    ensures
        names_of(classes).finite(),
        rules_for(names_of(classes)).len() <= names_of(classes).len() <= classes.len(),
{
    vstd::seq_lib::seq_to_set_is_finite(listed(classes));
    listed(classes).lemma_cardinality_of_set();
    lemma_stylesheet_rules(names_of(classes));
}

/// The stylesheet depends on the set of names alone: in whatever order the
/// names are listed, and however often, the same text comes out.
pub proof fn lemma_listing_is_irrelevant(a: Seq<&String>, b: Seq<&String>, add_reset: bool)
    requires
        names_of(a) == names_of(b),
    ensures
        stylesheet(names_of(a), add_reset) == stylesheet(names_of(b), add_reset),
{
}

/// Compiles the stylesheet for the names of `classes`.
pub fn compile(classes: &ClassSet, add_reset: bool) -> (css: String)
    requires
        classes.wf(),
    ensures
        css@ == stylesheet(classes.names(), add_reset),
{
    let mut css = if add_reset {
        String::from_str(RESET)
    } else {
        String::new()
    };
    let ghost order = classes@;
    proof {
        lemma_in_order(order);
        assert(order.take(0) =~= Seq::empty());
        assert(css@ =~= preamble(add_reset) + lines(rules_of(order.take(0))));
    }
    let mut i: usize = 0;
    while i < classes.len()
        invariant
            i <= classes@.len(),
            order == classes@,
            css@ == preamble(add_reset) + lines(rules_of(order.take(i as int))),
        decreases classes@.len() - i,
    {
        let ghost before = rules_of(order.take(i as int));
        proof {
            assert(order.take(i + 1).drop_last() =~= order.take(i as int));
            assert(order.take(i + 1).last() == order[i as int]);
        }
        match resolve_chars(classes.get(i).as_slice()) {
            Some(rule) => {
                let line = rule.line();
                css.append(line.as_str());
                proof {
                    let now = rules_of(order.take(i + 1));
                    assert(now == before.push(rule@));
                    assert(now.drop_last() =~= before);
                    assert(css@ =~= preamble(add_reset) + lines(now));
                }
            },
            None => {},
        }
        i += 1;
    }
    assert(order.take(i as int) =~= order);
    css
}

/// Creates the stylesheet for the class names that `classes` lists. The
/// listing need not be in order, and a name may stand in it more than once.
pub fn create_stylesheet(classes: Vec<&String>, add_reset: bool) -> (css: String)
    ensures
        css@ == stylesheet(names_of(classes@), add_reset),
{
    let mut set = ClassSet::new();
    let mut i: usize = 0;
    assert(listed(classes@.take(0)) =~= Seq::empty());
    assert(set.names() =~= names_of(classes@.take(0)));
    while i < classes.len()
        invariant
            i <= classes.len(),
            set.wf(),
            set.names() == names_of(classes@.take(i as int)),
        decreases classes.len() - i,
    {
        set.insert(classes[i].as_str());
        proof {
            let before = listed(classes@.take(i as int));
            assert(listed(classes@.take(i + 1)) =~= before.push(classes@[i as int]@));
            before.lemma_push_to_set_commute(classes@[i as int]@);
        }
        i += 1;
    }
    assert(classes@.take(i as int) =~= classes@);
    compile(&set, add_reset)
}

} // verus!
