//! What holds of the filters of all levels: the blocklist, the carve-out, and the
//! module directives across swaps of the default level.
use vstd::prelude::*;

use crate::directive::{
    admits, all_plain, applies, bare, decides, decision_is_unique, level_alone_is_plain,
    level_set_by, plain_directive, plain_target, reach, target_and_level_are_plain, target_of,
};
use crate::external::{all_understood, lets_through, understood};
use crate::filter::{
    bare_levels, blocked, blocklist_alone_is_plain, directive_list, directive_text,
    directives_in_force, fixed_directives, is_filter_for, kept_directives, lemma_blocked_directive,
    lemma_fixed_directives, lemma_kept, lemma_kept_module_directive, lemma_module_directives,
    lemma_module_names, level_asked_for, module_directives, names_level, names_target, reserved,
    trimmed_directives, unreserved, used, UNBLOCKED_MODULE,
};
use crate::level::{
    level_of, level_of_letters, level_text, level_text_names_level, Level, LevelFilter,
};
use crate::text::{
    join, join_spells_out, piece_is_within, split, split_after_separator, split_before_separator,
    split_then_join, split_whole, trimmed, trimmed_keeps_the_rest,
};
use tracing_subscriber::EnvFilter;

verus! {

/// The targets of the fixed directives.
proof fn lemma_fixed_targets(level: LevelFilter)
    ensures
        target_of(fixed_directives(level)[0]) == level_text(level),
        forall|b: int|
            0 <= b < 4 ==> #[trigger] fixed_directives(level)[b + 1] == blocked()[b] + "=off"@
                && target_of(fixed_directives(level)[b + 1]) == blocked()[b],
        target_of(fixed_directives(level)[5]) == UNBLOCKED_MODULE@,
{
    level_alone_is_plain(level);
    lemma_module_names();
    assert forall|b: int| 0 <= b < 4 implies #[trigger] fixed_directives(level)[b + 1]
        == blocked()[b] + "=off"@ && target_of(fixed_directives(level)[b + 1]) == blocked()[b] by {
        lemma_blocked_directive(b);
        target_and_level_are_plain(blocked()[b], LevelFilter::Off);
    }
    target_and_level_are_plain(UNBLOCKED_MODULE@, level);
}

/// No fixed directive but its own begins with a blocked module or with the
/// carve-out, but that the carve-out begins with `tauri`.
proof fn lemma_fixed_apart(level: LevelFilter)
    ensures
        forall|b: int| 0 <= b < 4 ==> !(#[trigger] blocked()[b]).is_prefix_of(level_text(level)),
        forall|a: int, b: int|
            0 <= a < 4 && 0 <= b < 4 && a != b ==> !(#[trigger] blocked()[b]).is_prefix_of(
                #[trigger] blocked()[a],
            ),
        forall|b: int|
            0 <= b < 4 ==> !UNBLOCKED_MODULE@.is_prefix_of(#[trigger] blocked()[b]),
        !UNBLOCKED_MODULE@.is_prefix_of(level_text(level)),
{
    reveal_strlit("wry");
    reveal_strlit("tokio_tungstenite");
    reveal_strlit("tungstenite");
    reveal_strlit("tauri");
    reveal_strlit("tauri_plugin_mihomo");
    reveal_strlit("off");
    reveal_strlit("error");
    reveal_strlit("warn");
    reveal_strlit("info");
    reveal_strlit("debug");
    reveal_strlit("trace");
    let b = blocked();
    let u = UNBLOCKED_MODULE@;
    assert(b[0].len() == 3 && b[1].len() == 17 && b[2].len() == 11 && b[3].len() == 5);
    assert(u.len() == 19);
    assert forall|m: Seq<char>, x: Seq<char>| #[trigger] m.is_prefix_of(x) implies x.len()
        >= m.len() && (m.len() > 1 ==> x[0] == m[0] && x[1] == m[1]) by {
        assert(x.subrange(0, m.len() as int) == m);
        if m.len() > 1 {
            assert(x.subrange(0, m.len() as int)[0] == x[0]);
            assert(x.subrange(0, m.len() as int)[1] == x[1]);
        }
    }
}

/// The blocklist is absolute: in every filter, a directive whose target begins
/// with a blocked module is that module's own, which turns it off, or that of the
/// carve-out.
pub proof fn blocklist_is_absolute(level: LevelFilter, preserved: Seq<char>, i: int, b: int)
    requires
        0 <= i < directives_in_force(level, preserved).len(),
        0 <= b < blocked().len(),
        blocked()[b].is_prefix_of(target_of(directives_in_force(level, preserved)[i])),
    ensures
        directives_in_force(level, preserved)[i] == blocked()[b] + "=off"@
            || directives_in_force(level, preserved)[i] == UNBLOCKED_MODULE@.push('=')
            + level_text(level),
{
    let kept = used(level, preserved);
    let list = directives_in_force(level, preserved);
    let first = list.len() - 6;
    if i < first {
        lemma_kept(kept, i);
    } else {
        lemma_fixed_targets(level);
        lemma_fixed_apart(level);
        let k = i - first;
        assert(list[i] == fixed_directives(level)[k]);
        if 1 <= k < 5 {
            assert(fixed_directives(level)[(k - 1) + 1] == blocked()[k - 1] + "=off"@);
            assert(blocked()[b].is_prefix_of(blocked()[k - 1]));
        }
    }
}

/// Every filter turns every blocked module off.
pub proof fn blocklist_is_present(level: LevelFilter, preserved: Seq<char>, b: int)
    requires
        0 <= b < blocked().len(),
    ensures
        directives_in_force(level, preserved).contains(blocked()[b] + "=off"@),
{
    let list = directives_in_force(level, preserved);
    lemma_fixed_targets(level);
    assert(list[list.len() - 6 + b + 1] == fixed_directives(level)[b + 1]);
}

/// The carve-out follows the default level: every filter sets it to that level,
/// and no other directive has a target that begins with it.
pub proof fn carve_out_follows_default_level(level: LevelFilter, preserved: Seq<char>)
    ensures
        directives_in_force(level, preserved).contains(
            UNBLOCKED_MODULE@.push('=') + level_text(level),
        ),
        forall|i: int|
            0 <= i < directives_in_force(level, preserved).len()
                && UNBLOCKED_MODULE@.is_prefix_of(
                target_of(#[trigger] directives_in_force(level, preserved)[i]),
            ) ==> directives_in_force(level, preserved)[i] == UNBLOCKED_MODULE@.push('=')
                + level_text(level),
{
    let kept = used(level, preserved);
    let list = directives_in_force(level, preserved);
    let first = list.len() - 6;
    lemma_fixed_targets(level);
    lemma_fixed_apart(level);
    assert(list[first + 5] == fixed_directives(level)[5]);
    assert forall|i: int|
        0 <= i < list.len() && UNBLOCKED_MODULE@.is_prefix_of(
            target_of(#[trigger] list[i]),
        ) implies list[i] == UNBLOCKED_MODULE@.push('=') + level_text(level) by {
        if i < first {
            lemma_kept(kept, i);
        } else {
            let k = i - first;
            assert(list[i] == fixed_directives(level)[k]);
            if 1 <= k < 5 {
                assert(target_of(fixed_directives(level)[(k - 1) + 1]) == blocked()[k - 1]);
                assert(!UNBLOCKED_MODULE@.is_prefix_of(blocked()[k - 1]));
            }
        }
    }
}

/// A part is not longer than the whole.
proof fn lemma_join_len(parts: Seq<Seq<char>>, i: int, sep: char)
    requires
        0 <= i < parts.len(),
    ensures
        join(parts, sep).len() >= parts[i].len(),
    decreases parts.len(),
{
    if parts.len() > 1 && i < parts.len() - 1 {
        lemma_join_len(parts.drop_last(), i, sep);
    }
}

/// Module directives survive every swap of the default level: whether they are
/// understood does not depend on the level, and where they are, each of them
/// that may stand beside the blocklist stands in the filter of every level.
pub proof fn module_directives_survive_swap(
    before: LevelFilter,
    after: LevelFilter,
    preserved: Seq<char>,
    directive: Seq<char>,
)
    requires
        all_understood(directive_list(before, preserved)),
        split(preserved, ',').contains(directive),
        directive.len() > 0,
        !reserved(directive),
    ensures
        all_understood(directive_list(after, preserved)),
        directives_in_force(after, preserved).contains(directive),
{
    let old_list = directive_list(before, preserved);
    let list = directive_list(after, preserved);
    lemma_fixed_directives(after);
    let first = list.len() - 6;
    assert forall|i: int| 0 <= i < list.len() implies understood(#[trigger] list[i]) by {
        if i < first {
            assert(list[i] == old_list[i]);
        } else {
            assert(list[i] == fixed_directives(after)[i - first]);
        }
    }
    let parts = split(preserved, ',');
    let kept = kept_directives(preserved);
    let k = choose|k: int| 0 <= k < parts.len() && parts[k] == directive;
    parts.lemma_filter_contains(unreserved(), k);
    let j = choose|j: int| 0 <= j < kept.len() && kept[j] == directive;
    lemma_join_len(kept, j, ',');
    assert(list[j] == directive);
}

/// A `RUST_LOG` value that is one bare level holds no module directives.
pub proof fn bare_level_has_no_module_directives(raw: Seq<char>)
    requires
        level_of(trimmed(raw)) is Some,
    ensures
        module_directives(Some(raw)) == Seq::<char>::empty(),
{
    level_of_letters(trimmed(raw));
    trimmed_keeps_the_rest(raw);
    assert(!raw.contains('='));
    let kept = trimmed_directives(raw).filter(names_target());
    if kept.len() > 0 {
        lemma_kept_module_directive(raw, 0);
        let all = trimmed_directives(raw);
        let k = choose|k: int| 0 <= k < all.len() && all[k] == kept[0];
        let token = split(raw, ',')[k];
        trimmed_keeps_the_rest(token);
        assert(token.contains('='));
        piece_is_within(raw, k, ',', '=');
    }
}

/// A directive of a `RUST_LOG` value is read as a bare level or as a module
/// directive, never as both.
pub proof fn directives_are_read_once(directive: Seq<char>)
    ensures
        !(names_level()(directive) && names_target()(directive)),
{
    if level_of(directive) is Some {
        level_of_letters(directive);
    }
}

/// A `RUST_LOG` value that is one bare level asks for that level.
pub proof fn bare_level_is_asked_for(raw: Seq<char>)
    requires
        level_of(trimmed(raw)) is Some,
    ensures
        level_asked_for(Some(raw)) == level_of(trimmed(raw)),
{
    level_of_letters(trimmed(raw));
    trimmed_keeps_the_rest(raw);
    assert(!raw.contains(','));
    split_whole(raw, ',');
    let all = trimmed_directives(raw);
    assert(all =~= seq![trimmed(raw)]);
    assert forall|i: int| 0 <= i < all.len() implies names_level()(#[trigger] all[i]) by {}
    lemma_filter_all(all, names_level());
    assert(bare_levels(raw) == all);
}

/// A bare level keeps its meaning beside module directives: with one bare level
/// and otherwise only directives that name a target, that level is asked for.
pub proof fn bare_level_beside_module_directives(raw: Seq<char>, i: int)
    requires
        0 <= i < trimmed_directives(raw).len(),
        level_of(trimmed_directives(raw)[i]) is Some,
        forall|j: int|
            0 <= j < trimmed_directives(raw).len() && j != i ==> names_target()(
                #[trigger] trimmed_directives(raw)[j],
            ),
    ensures
        level_asked_for(Some(raw)) == level_of(trimmed_directives(raw)[i]),
{
    let all = trimmed_directives(raw);
    assert forall|j: int| 0 <= j < all.len() && j != i implies !names_level()(
        #[trigger] all[j],
    ) by {
        assert(names_target()(all[j]));
        directives_are_read_once(all[j]);
    }
    lemma_filter_only(all, i, names_level());
}

/// Filtering by a predicate that holds of one element alone leaves that element.
proof fn lemma_filter_only(list: Seq<Seq<char>>, i: int, pred: spec_fn(Seq<char>) -> bool)
    requires
        0 <= i < list.len(),
        pred(list[i]),
        forall|j: int| 0 <= j < list.len() && j != i ==> !pred(#[trigger] list[j]),
    ensures
        list.filter(pred) == seq![list[i]],
    decreases list.len(),
{
    reveal(Seq::filter);
    let front = list.drop_last();
    assert forall|j: int| 0 <= j < front.len() && j != i implies !pred(#[trigger] front[j]) by {
        assert(front[j] == list[j]);
    }
    if i == list.len() - 1 {
        lemma_filter_none(front, pred);
        assert(Seq::<Seq<char>>::empty().push(list[i]) =~= seq![list[i]]);
    } else {
        assert(front[i] == list[i]);
        lemma_filter_only(front, i, pred);
        assert(!pred(list[list.len() - 1]));
    }
}

/// Filtering by a predicate that holds of no element leaves nothing.
proof fn lemma_filter_none(list: Seq<Seq<char>>, pred: spec_fn(Seq<char>) -> bool)
    requires
        forall|j: int| 0 <= j < list.len() ==> !pred(#[trigger] list[j]),
    ensures
        list.filter(pred) == Seq::<Seq<char>>::empty(),
    decreases list.len(),
{
    reveal(Seq::filter);
    if list.len() > 0 {
        let front = list.drop_last();
        assert forall|j: int| 0 <= j < front.len() implies !pred(#[trigger] front[j]) by {
            assert(front[j] == list[j]);
        }
        lemma_filter_none(front, pred);
        assert(!pred(list[list.len() - 1]));
    }
}

/// Reading back what was kept of a `RUST_LOG` value keeps all of it.
pub proof fn module_directives_are_kept_once(raw: Seq<char>)
    ensures
        module_directives(Some(module_directives(Some(raw)))) == module_directives(Some(raw)),
{
    let kept = trimmed_directives(raw).filter(names_target());
    let text = module_directives(Some(raw));
    lemma_module_directives(raw);
    if kept.len() == 0 {
        let again = trimmed_directives(text).filter(names_target());
        if again.len() > 0 {
            lemma_kept_module_directive(text, 0);
            let all = trimmed_directives(text);
            let k = choose|k: int| 0 <= k < all.len() && all[k] == again[0];
            trimmed_keeps_the_rest(split(text, ',')[k]);
            assert(split(text, ',')[k].contains('='));
        }
    } else {
        assert forall|i: int| 0 <= i < kept.len() implies trimmed(#[trigger] kept[i]) == kept[i]
            && names_target()(kept[i]) by {
            lemma_kept_module_directive(raw, i);
        }
        assert(trimmed_directives(text) =~= kept);
        lemma_filter_all(kept, names_target());
    }
}

/// Filtering by a predicate that holds of every element changes nothing.
proof fn lemma_filter_all(list: Seq<Seq<char>>, pred: spec_fn(Seq<char>) -> bool)
    requires
        forall|i: int| 0 <= i < list.len() ==> pred(#[trigger] list[i]),
    ensures
        list.filter(pred) == list,
    decreases list.len(),
{
    reveal(Seq::filter);
    if list.len() > 0 {
        assert forall|i: int| 0 <= i < list.drop_last().len() implies pred(
            #[trigger] list.drop_last()[i],
        ) by {
            assert(list.drop_last()[i] == list[i]);
        }
        lemma_filter_all(list.drop_last(), pred);
        assert(pred(list[list.len() - 1]));
        assert(list.drop_last().push(list.last()) =~= list);
    }
}

/// What the fixed directives say.
proof fn lemma_fixed_facts(level: LevelFilter)
    ensures
        bare(fixed_directives(level)[0]),
        level_set_by(fixed_directives(level)[0]) == Some(level),
        forall|b: int|
            0 <= b < 4 ==> {
                &&& !bare(#[trigger] fixed_directives(level)[b + 1])
                &&& target_of(fixed_directives(level)[b + 1]) == blocked()[b]
                &&& level_set_by(fixed_directives(level)[b + 1]) == Some(LevelFilter::Off)
                &&& fixed_directives(level)[b + 1].len() > 0
            },
        !bare(fixed_directives(level)[5]),
        target_of(fixed_directives(level)[5]) == UNBLOCKED_MODULE@,
        level_set_by(fixed_directives(level)[5]) == Some(level),
        fixed_directives(level)[0].len() > 0,
        fixed_directives(level)[5].len() > 0,
{
    level_alone_is_plain(level);
    level_text_names_level(level);
    lemma_module_names();
    assert forall|b: int| 0 <= b < 4 implies {
        &&& !bare(#[trigger] fixed_directives(level)[b + 1])
        &&& target_of(fixed_directives(level)[b + 1]) == blocked()[b]
        &&& level_set_by(fixed_directives(level)[b + 1]) == Some(LevelFilter::Off)
        &&& fixed_directives(level)[b + 1].len() > 0
    } by {
        lemma_blocked_directive(b);
        target_and_level_are_plain(blocked()[b], LevelFilter::Off);
        assert(fixed_directives(level)[b + 1] == blocked()[b] + "=off"@);
    }
    target_and_level_are_plain(UNBLOCKED_MODULE@, level);
}

/// Prefixes of one text agree as far as both go.
proof fn lemma_prefixes(a: Seq<char>, b: Seq<char>, s: Seq<char>)
    requires
        a.is_prefix_of(s),
        b.is_prefix_of(s),
    ensures
        a.len() <= b.len() ==> a.is_prefix_of(b),
        a.len() == b.len() ==> a == b,
{
    assert(s.subrange(0, a.len() as int) == a);
    assert(s.subrange(0, b.len() as int) == b);
    if a.len() <= b.len() {
        assert(b.subrange(0, a.len() as int) =~= a);
    }
}

/// At most one blocked module is a prefix of a target, and all are shorter than
/// the carve-out.
proof fn lemma_blocked_prefixes(target: Seq<char>)
    ensures
        forall|a: int, b: int|
            0 <= a < 4 && 0 <= b < 4 && (#[trigger] blocked()[a]).is_prefix_of(target) && (
            #[trigger] blocked()[b]).is_prefix_of(target) ==> a == b,
        forall|b: int| 0 <= b < 4 ==> (#[trigger] blocked()[b]).len() < UNBLOCKED_MODULE@.len(),
{
    reveal_strlit("wry");
    reveal_strlit("tokio_tungstenite");
    reveal_strlit("tungstenite");
    reveal_strlit("tauri");
    reveal_strlit("tauri_plugin_mihomo");
    let all = blocked();
    assert(all[0].len() == 3 && all[1].len() == 17 && all[2].len() == 11 && all[3].len() == 5);
    assert forall|a: int, b: int|
        0 <= a < 4 && 0 <= b < 4 && (#[trigger] blocked()[a]).is_prefix_of(target) && (
        #[trigger] blocked()[b]).is_prefix_of(target) implies a == b by {
        assert(target.subrange(0, all[a].len() as int)[1] == target[1]);
        assert(target.subrange(0, all[b].len() as int)[1] == target[1]);
        assert(all[a][1] == target[1]);
        assert(all[b][1] == target[1]);
        assert(all[0][1] == 'r' && all[1][1] == 'o' && all[2][1] == 'u' && all[3][1] == 'a');
    }
}

/// The directives in force: those kept, and behind them the fixed ones.
proof fn lemma_in_force(level: LevelFilter, preserved: Seq<char>, j: int)
    requires
        0 <= j < directives_in_force(level, preserved).len(),
    ensures
        ({
            let list = directives_in_force(level, preserved);
            let first = list.len() - 6;
            &&& first >= 0
            &&& j < first ==> !reserved(list[j])
            &&& j >= first ==> list[j] == fixed_directives(level)[j - first]
        }),
{
    let list = directives_in_force(level, preserved);
    let first = list.len() - 6;
    if j < first {
        lemma_kept(used(level, preserved), j);
    }
}

/// A filter of plain directives lets exactly those events through that the
/// directives in force admit, so what holds of these holds of the filter.
pub proof fn filters_let_through_what_is_admitted(
    filter: EnvFilter,
    default_level: LevelFilter,
    preserved: Seq<char>,
    target: Seq<char>,
    level: Level,
)
    requires
        is_filter_for(filter, default_level, preserved),
        all_plain(directives_in_force(default_level, preserved)),
    ensures
        lets_through(filter).contains((target, level)) <==> admits(
            directives_in_force(default_level, preserved),
            target,
            level,
        ),
{
}

/// The filter is a blocklist of prefixes: with nothing preserved, an event passes
/// if its level does and its target begins with the carve-out or with no blocked
/// module.
pub proof fn filter_is_a_prefix_blocklist(
    default_level: LevelFilter,
    target: Seq<char>,
    level: Level,
)
    ensures
        admits(directives_in_force(default_level, Seq::empty()), target, level) <==> {
            &&& default_level.passes(level)
            &&& UNBLOCKED_MODULE@.is_prefix_of(target) || forall|b: int|
                0 <= b < blocked().len() ==> !(#[trigger] blocked()[b]).is_prefix_of(target)
        },
{
    let list = fixed_directives(default_level);
    blocklist_alone_is_plain(default_level);
    assert(directives_in_force(default_level, Seq::empty()) == list);
    lemma_fixed_facts(default_level);
    lemma_blocked_prefixes(target);
    let carved = UNBLOCKED_MODULE@.is_prefix_of(target);
    let is_blocked = exists|b: int|
        0 <= b < blocked().len() && (#[trigger] blocked()[b]).is_prefix_of(target);
    let winner = if carved {
        5
    } else if is_blocked {
        (choose|b: int| 0 <= b < blocked().len() && (#[trigger] blocked()[b]).is_prefix_of(target))
            + 1
    } else {
        0
    };
    assert forall|j: int| 0 <= j < list.len() && applies(#[trigger] list[j], target) implies reach(
        list[j],
    ) < reach(list[winner]) || (reach(list[j]) == reach(list[winner]) && j <= winner) by {
        if 1 <= j < 5 {
            assert(target_of(list[(j - 1) + 1]) == blocked()[j - 1]);
            assert(blocked()[j - 1].is_prefix_of(target));
        }
        if 1 <= winner < 5 {
            assert(target_of(list[(winner - 1) + 1]) == blocked()[winner - 1]);
        }
    }
    if 1 <= winner < 5 {
        assert(level_set_by(list[(winner - 1) + 1]) == Some(LevelFilter::Off));
    }
    assert(decides(list, target, winner));
    decision_is_unique(list, target, level, winner);
}

/// The fixed directive of a module decides on the targets that begin with the
/// module, but that on the carve-out its own directive does.
proof fn lemma_module_decides(
    default_level: LevelFilter,
    preserved: Seq<char>,
    k: int,
    target: Seq<char>,
)
    requires
        1 <= k < 6,
        target_of(fixed_directives(default_level)[k]).is_prefix_of(target),
        k < 5 ==> !UNBLOCKED_MODULE@.is_prefix_of(target),
    ensures
        decides(
            directives_in_force(default_level, preserved),
            target,
            directives_in_force(default_level, preserved).len() - 6 + k,
        ),
{
    let list = directives_in_force(default_level, preserved);
    let first = list.len() - 6;
    let winner = first + k;
    let module = target_of(fixed_directives(default_level)[k]);
    lemma_fixed_facts(default_level);
    lemma_blocked_prefixes(target);
    lemma_in_force(default_level, preserved, winner);
    assert(list[winner] == fixed_directives(default_level)[k]);
    if k < 5 {
        assert(target_of(fixed_directives(default_level)[(k - 1) + 1]) == blocked()[k - 1]);
    }
    assert forall|j: int| 0 <= j < list.len() && applies(#[trigger] list[j], target) implies reach(
        list[j],
    ) < reach(list[winner]) || (reach(list[j]) == reach(list[winner]) && j <= winner) by {
        lemma_in_force(default_level, preserved, j);
        if j < first {
            if !bare(list[j]) {
                lemma_prefixes(module, target_of(list[j]), target);
                assert(module == UNBLOCKED_MODULE@ || module == blocked()[k - 1]);
            }
        } else if first < j < first + 5 {
            let a = j - first - 1;
            assert(target_of(fixed_directives(default_level)[a + 1]) == blocked()[a]);
            assert(blocked()[a].is_prefix_of(target));
        }
    }
}

/// The blocklist is silent whatever is preserved and whatever the default level
/// is: no event passes whose target begins with a blocked module, but for those of
/// the carve-out.
pub proof fn blocked_modules_are_silent(
    default_level: LevelFilter,
    preserved: Seq<char>,
    b: int,
    target: Seq<char>,
    level: Level,
)
    requires
        0 <= b < blocked().len(),
        blocked()[b].is_prefix_of(target),
        !UNBLOCKED_MODULE@.is_prefix_of(target),
    ensures
        !admits(directives_in_force(default_level, preserved), target, level),
{
    let list = directives_in_force(default_level, preserved);
    let winner = list.len() - 6 + (b + 1);
    lemma_fixed_facts(default_level);
    assert(target_of(fixed_directives(default_level)[b + 1]) == blocked()[b]);
    lemma_module_decides(default_level, preserved, b + 1, target);
    lemma_in_force(default_level, preserved, winner);
    decision_is_unique(list, target, level, winner);
    assert(level_set_by(fixed_directives(default_level)[b + 1]) == Some(LevelFilter::Off));
}

/// The carve-out passes exactly what the default level passes, whatever is
/// preserved: an event whose target begins with it passes if it passes the default
/// level.
pub proof fn carve_out_passes_default_level(
    default_level: LevelFilter,
    preserved: Seq<char>,
    target: Seq<char>,
    level: Level,
)
    requires
        UNBLOCKED_MODULE@.is_prefix_of(target),
    ensures
        admits(directives_in_force(default_level, preserved), target, level)
            <==> default_level.passes(level),
{
    let list = directives_in_force(default_level, preserved);
    let winner = list.len() - 6 + 5;
    lemma_fixed_facts(default_level);
    lemma_module_decides(default_level, preserved, 5, target);
    lemma_in_force(default_level, preserved, winner);
    decision_is_unique(list, target, level, winner);
}

/// Whether no blocked module, nor the carve-out, is a prefix of `target`.
pub open spec fn off_the_blocklist(target: Seq<char>) -> bool {
    &&& !UNBLOCKED_MODULE@.is_prefix_of(target)
    &&& forall|b: int|
        0 <= b < blocked().len() ==> !(#[trigger] blocked()[b]).is_prefix_of(target)
}

/// Plain directives that are kept are in force, in front of the fixed ones, or
/// there is nothing to them.
proof fn lemma_kept_in_force(default_level: LevelFilter, preserved: Seq<char>)
    requires
        all_plain(kept_directives(preserved)),
    ensures
        ({
            let list = directives_in_force(default_level, preserved);
            let kept = kept_directives(preserved);
            ||| list == kept + fixed_directives(default_level)
            ||| list == fixed_directives(default_level) && forall|i: int|
                0 <= i < kept.len() ==> (#[trigger] kept[i]).len() == 0
        }),
{
    let kept = kept_directives(preserved);
    let list = directive_list(default_level, preserved);
    lemma_fixed_directives(default_level);
    assert forall|i: int| 0 <= i < list.len() implies understood(#[trigger] list[i]) by {
        let first = list.len() - 6;
        if i < first {
            assert(list[i] == kept[i]);
        } else {
            assert(list[i] == fixed_directives(default_level)[i - first]);
        }
    }
    if join(kept, ',').len() == 0 {
        assert forall|i: int| 0 <= i < kept.len() implies (#[trigger] kept[i]).len() == 0 by {
            lemma_join_len(kept, i, ',');
        }
        assert(list =~= fixed_directives(default_level));
    }
}

/// Module directives survive swaps: where a kept module directive decides, off
/// the blocklist, events pass or not by its level, under every default level.
pub proof fn module_directives_decide_at_every_level(
    default_level: LevelFilter,
    preserved: Seq<char>,
    i: int,
    target: Seq<char>,
    level: Level,
)
    requires
        all_plain(kept_directives(preserved)),
        decides(kept_directives(preserved), target, i),
        !bare(kept_directives(preserved)[i]),
        off_the_blocklist(target),
    ensures
        admits(directives_in_force(default_level, preserved), target, level) <==> level_set_by(
            kept_directives(preserved)[i],
        )->0.passes(level),
{
    let kept = kept_directives(preserved);
    let list = directives_in_force(default_level, preserved);
    lemma_kept_in_force(default_level, preserved);
    assert(kept[i].len() > 0);
    assert(list == kept + fixed_directives(default_level));
    lemma_fixed_facts(default_level);
    assert forall|j: int| 0 <= j < list.len() && applies(#[trigger] list[j], target) implies reach(
        list[j],
    ) < reach(list[i]) || (reach(list[j]) == reach(list[i]) && j <= i) by {
        let k = j - kept.len();
        if k < 0 {
            assert(list[j] == kept[j]);
        } else {
            assert(list[j] == fixed_directives(default_level)[k]);
            if 1 <= k < 5 {
                assert(target_of(fixed_directives(default_level)[(k - 1) + 1]) == blocked()[k - 1]);
            }
        }
    }
    assert(list[i] == kept[i]);
    assert(decides(list, target, i));
    decision_is_unique(list, target, level, i);
}

/// The default level decides on the rest: where no kept module directive applies,
/// off the blocklist, events pass if they pass the default level.
pub proof fn default_level_decides_the_rest(
    default_level: LevelFilter,
    preserved: Seq<char>,
    target: Seq<char>,
    level: Level,
)
    requires
        all_plain(kept_directives(preserved)),
        forall|i: int|
            0 <= i < kept_directives(preserved).len() && applies(
                #[trigger] kept_directives(preserved)[i],
                target,
            ) ==> bare(kept_directives(preserved)[i]),
        off_the_blocklist(target),
    ensures
        admits(directives_in_force(default_level, preserved), target, level)
            <==> default_level.passes(level),
{
    let kept = kept_directives(preserved);
    let list = directives_in_force(default_level, preserved);
    lemma_kept_in_force(default_level, preserved);
    lemma_fixed_facts(default_level);
    let first = list.len() - 6;
    let winner = first;
    assert(list[first] == fixed_directives(default_level)[0]);
    assert forall|j: int| 0 <= j < list.len() && applies(#[trigger] list[j], target) implies reach(
        list[j],
    ) < reach(list[winner]) || (reach(list[j]) == reach(list[winner]) && j <= winner) by {
        let k = j - first;
        if k < 0 {
            assert(list[j] == kept[j]);
        } else {
            assert(list[j] == fixed_directives(default_level)[k]);
            if 1 <= k < 5 {
                assert(target_of(fixed_directives(default_level)[(k - 1) + 1]) == blocked()[k - 1]);
            }
        }
    }
    assert(decides(list, target, winner));
    decision_is_unique(list, target, level, winner);
}

/// Whether a target begins with one of the blocked modules.
pub open spec fn begins_blocked(target: Seq<char>) -> bool {
    ||| "wry"@.is_prefix_of(target)
    ||| "tokio_tungstenite"@.is_prefix_of(target)
    ||| "tungstenite"@.is_prefix_of(target)
    ||| "tauri"@.is_prefix_of(target)
}

/// Only directives of the blocklist are reserved, and all of them are: a directive
/// is, whatever it sets, exactly where what stands before its `=` begins with `wry`,
/// `tokio_tungstenite`, `tungstenite` or `tauri`. The carve-out begins with `tauri`.
pub proof fn only_the_blocklist_is_reserved(target: Seq<char>, rest: Seq<char>)
    requires
        !target.contains('='),
    ensures
        reserved(target + seq!['='] + rest) <==> begins_blocked(target),
        reserved(target) <==> begins_blocked(target),
        UNBLOCKED_MODULE@.is_prefix_of(target) ==> "tauri"@.is_prefix_of(target),
        UNBLOCKED_MODULE@ == "tauri_plugin_mihomo"@,
{
    split_before_separator(target, rest, '=');
    split_whole(target, '=');
    let b = blocked();
    assert(b.len() == 4 && b[0] == "wry"@ && b[1] == "tokio_tungstenite"@ && b[2]
        == "tungstenite"@ && b[3] == "tauri"@);
    if UNBLOCKED_MODULE@.is_prefix_of(target) {
        lemma_carve_out_is_blocked(target);
    }
}

/// What is kept beside the blocklist, directive by directive: the reserved ones go,
/// every other one stays as it is, in its place.
pub proof fn all_but_the_blocklist_is_kept(preserved: Seq<char>, directive: Seq<char>)
    requires
        !directive.contains(','),
    ensures
        kept_directives(preserved + seq![','] + directive) == if begins_blocked(
            target_of(directive),
        ) {
            kept_directives(preserved)
        } else {
            kept_directives(preserved).push(directive)
        },
        kept_directives(directive) == if begins_blocked(target_of(directive)) {
            Seq::<Seq<char>>::empty()
        } else {
            seq![directive]
        },
{
    reveal(Seq::filter);
    lemma_reserved(directive);
    let more = split(preserved, ',').push(directive);
    split_after_separator(preserved, directive, ',');
    assert(more.drop_last() =~= split(preserved, ','));
    assert(unreserved()(directive) == !reserved(directive));
    split_whole(directive, ',');
    let alone = seq![directive];
    assert(alone.drop_last() =~= Seq::<Seq<char>>::empty());
    assert(alone.drop_last().filter(unreserved()) =~= Seq::<Seq<char>>::empty());
    assert(Seq::<Seq<char>>::empty().push(directive) =~= alone);
}

/// A directive is reserved where its target begins with a blocked module.
proof fn lemma_reserved(directive: Seq<char>)
    ensures
        reserved(directive) <==> begins_blocked(target_of(directive)),
{
    let target = target_of(directive);
    split_then_join(directive, '=');
    assert(!split(directive, '=')[0].contains('='));
    only_the_blocklist_is_reserved(target, Seq::empty());
    split_whole(target, '=');
    assert(target_of(target) == target);
}

/// The directives of a filter, spelled out: what is kept, the default level, the
/// four blocked modules turned off, and the carve-out at the default level.
pub proof fn directive_text_is_spelled_out(level: LevelFilter, preserved: Seq<char>)
    ensures
        ({
            let kept = join(kept_directives(preserved), ',');
            let fixed = level_text(level)
                + ",wry=off,tokio_tungstenite=off,tungstenite=off,tauri=off,tauri_plugin_mihomo="@
                + level_text(level);
            directive_text(level, preserved) == if kept.len() == 0 {
                fixed
            } else {
                kept + seq![','] + fixed
            }
        }),
{
    let parts = kept_directives(preserved);
    let kept = join(parts, ',');
    let name = level_text(level);
    let f = fixed_directives(level);
    let list = directive_list(level, preserved);
    let head = if kept.len() == 0 {
        Seq::empty()
    } else {
        parts
    };
    let text = if kept.len() == 0 {
        name
    } else {
        kept + seq![','] + name
    };
    let l0 = head.push(f[0]);
    let l1 = l0.push(f[1]);
    let l2 = l1.push(f[2]);
    let l3 = l2.push(f[3]);
    let l4 = l3.push(f[4]);
    assert(list =~= l4.push(f[5]));
    if kept.len() == 0 {
        assert(l0 =~= seq![name]);
    } else {
        assert(parts.len() > 0);
    }
    join_spells_out(head, f[0], ',');
    join_spells_out(l0, f[1], ',');
    join_spells_out(l1, f[2], ',');
    join_spells_out(l2, f[3], ',');
    join_spells_out(l3, f[4], ',');
    join_spells_out(l4, f[5], ',');
    assert(join(l0, ',') == text);
    reveal_strlit("wry");
    reveal_strlit("tokio_tungstenite");
    reveal_strlit("tungstenite");
    reveal_strlit("tauri");
    reveal_strlit("tauri_plugin_mihomo");
    reveal_strlit("=off");
    reveal_strlit(
        ",wry=off,tokio_tungstenite=off,tungstenite=off,tauri=off,tauri_plugin_mihomo=",
    );
    let middle =
        ",wry=off,tokio_tungstenite=off,tungstenite=off,tauri=off,tauri_plugin_mihomo="@;
    let comma = seq![','];
    let last = "tauri_plugin_mihomo"@.push('=');
    assert(comma + f[1] + comma + f[2] + comma + f[3] + comma + f[4] + comma + last =~= middle);
    lemma_shift(text, f[1], f[2], f[3], f[4], last, name);
    if kept.len() > 0 {
        assert(kept + comma + name + middle + name =~= kept + comma + (name + middle + name));
    }
}

/// Five texts behind commas, taken together.
proof fn lemma_shift(
    head: Seq<char>,
    a: Seq<char>,
    b: Seq<char>,
    c: Seq<char>,
    d: Seq<char>,
    e: Seq<char>,
    tail: Seq<char>,
)
    ensures
        ({
            let comma = seq![','];
            head + comma + a + comma + b + comma + c + comma + d + comma + (e + tail) == head + (
            comma + a + comma + b + comma + c + comma + d + comma + e) + tail
        }),
{
    let comma = seq![','];
    let one = comma + a;
    let two = one + comma + b;
    let three = two + comma + c;
    let four = three + comma + d;
    assert(head + comma + a =~= head + one);
    assert(head + one + comma + b =~= head + two);
    assert(head + two + comma + c =~= head + three);
    assert(head + three + comma + d =~= head + four);
    assert(head + four + comma + (e + tail) =~= head + (four + comma + e) + tail);
}

/// A module directive is what decides on its module: where `target=level` is all
/// that is preserved and the target does not begin with a blocked module, events of
/// that target pass exactly if the directive's level passes them, whatever the
/// default level is. Where it turns out to be of the blocklist, the filter is as if
/// nothing were preserved.
pub proof fn preserved_directives_decide_on_their_module(
    default_level: LevelFilter,
    target: Seq<char>,
    set: LevelFilter,
    level: Level,
)
    requires
        plain_target(target),
    ensures
        ({
            let preserved = target + seq!['='] + level_text(set);
            &&& !begins_blocked(target) ==> (admits(
                directives_in_force(default_level, preserved),
                target,
                level,
            ) <==> set.passes(level))
            &&& begins_blocked(target) ==> directives_in_force(default_level, preserved)
                == directives_in_force(default_level, Seq::empty())
        }),
{
    let preserved = target + seq!['='] + level_text(set);
    target_and_level_are_plain(target, set);
    assert(target.push('=') + level_text(set) =~= preserved);
    all_but_the_blocklist_is_kept(preserved, preserved);
    only_the_blocklist_is_reserved(target, level_text(set));
    let kept = kept_directives(preserved);
    if begins_blocked(target) {
        assert(kept =~= Seq::<Seq<char>>::empty());
        assert(directive_list(default_level, preserved) =~= fixed_directives(default_level));
        blocklist_alone_is_plain(default_level);
    } else {
        assert(target.subrange(0, target.len() as int) =~= target);
        assert(target.is_prefix_of(target));
        assert(kept[0] == preserved);
        assert(preserved.len() > 0);
        assert(applies(kept[0], target));
        assert(decides(kept, target, 0));
        let b = blocked();
        assert(b[0] == "wry"@ && b[1] == "tokio_tungstenite"@ && b[2] == "tungstenite"@ && b[3]
            == "tauri"@);
        assert(off_the_blocklist(target));
        module_directives_decide_at_every_level(default_level, preserved, 0, target, level);
    }
}

/// Directives that are not understood cost all of them, and nothing else: the filter
/// is then as if nothing were preserved; where all are understood, all that are kept
/// are in force.
pub proof fn all_directives_are_used_or_none(level: LevelFilter, preserved: Seq<char>)
    ensures
        all_understood(directive_list(level, preserved)) ==> directives_in_force(level, preserved)
            == directive_list(level, preserved),
        !all_understood(directive_list(level, preserved)) ==> directives_in_force(level, preserved)
            == fixed_directives(level),
        all_understood(kept_directives(preserved)) ==> all_understood(
            directive_list(level, preserved),
        ),
{
    blocklist_alone_is_plain(level);
    lemma_fixed_directives(level);
    if all_understood(kept_directives(preserved)) {
        let list = directive_list(level, preserved);
        let first = list.len() - 6;
        assert forall|i: int| 0 <= i < list.len() implies understood(#[trigger] list[i]) by {
            if i < first {
                assert(list[i] == kept_directives(preserved)[i]);
            } else {
                assert(list[i] == fixed_directives(level)[i - first]);
            }
        }
    }
}

/// What is kept of a `RUST_LOG` value, directive by directive: those with an `=`,
/// without the white space around them, in order and with commas between; the others
/// leave no trace.
pub proof fn module_directives_are_gathered(raw: Seq<char>, directive: Seq<char>)
    requires
        !directive.contains(','),
    ensures
        ({
            let before = module_directives(Some(raw));
            module_directives(Some(raw + seq![','] + directive)) == if !directive.contains('=') {
                before
            } else if before.len() == 0 {
                trimmed(directive)
            } else {
                before + seq![','] + trimmed(directive)
            }
        }),
        module_directives(Some(directive)) == if directive.contains('=') {
            trimmed(directive)
        } else {
            Seq::<char>::empty()
        },
        module_directives(None) == Seq::<char>::empty(),
{
    reveal(Seq::filter);
    let token = trimmed(directive);
    trimmed_keeps_the_rest(directive);
    assert(directive.contains('=') == token.contains('='));
    assert(names_target()(token) == (token.len() > 0 && token.contains('=')));
    let old = trimmed_directives(raw);
    let kept = old.filter(names_target());
    split_after_separator(raw, directive, ',');
    let all = trimmed_directives(raw + seq![','] + directive);
    assert(all =~= old.push(token));
    assert(all.drop_last() =~= old);
    join_spells_out(kept, token, ',');
    if kept.len() > 0 {
        lemma_kept_module_directive(raw, 0);
        lemma_join_len(kept, 0, ',');
    } else {
        assert(kept.push(token) =~= seq![token]);
    }
    split_whole(directive, ',');
    let alone = trimmed_directives(directive);
    assert(alone =~= seq![token]);
    assert(alone.drop_last() =~= Seq::<Seq<char>>::empty());
    assert(alone.drop_last().filter(names_target()) =~= Seq::<Seq<char>>::empty());
    assert(Seq::<Seq<char>>::empty().push(token) =~= seq![token]);
}

/// Several bare levels ask for none, and so do none.
pub proof fn one_bare_level_is_asked_for(raw: Seq<char>, i: int, j: int)
    ensures
        0 <= i < j < trimmed_directives(raw).len() && level_of(trimmed_directives(raw)[i]) is Some
            && level_of(trimmed_directives(raw)[j]) is Some ==> level_asked_for(Some(raw)) is None,
        (forall|k: int|
            0 <= k < trimmed_directives(raw).len() ==> level_of(
                #[trigger] trimmed_directives(raw)[k],
            ) is None) ==> level_asked_for(Some(raw)) is None,
        level_asked_for(None) is None,
{
    let all = trimmed_directives(raw);
    if 0 <= i < j < all.len() && level_of(all[i]) is Some && level_of(all[j]) is Some {
        lemma_filter_two(all, i, j, names_level());
    }
    if forall|k: int| 0 <= k < all.len() ==> level_of(#[trigger] all[k]) is None {
        assert forall|k: int| 0 <= k < all.len() implies !names_level()(#[trigger] all[k]) by {}
        lemma_filter_none(all, names_level());
    }
}

/// Filtering by a predicate that holds of two elements leaves two or more.
proof fn lemma_filter_two(list: Seq<Seq<char>>, i: int, j: int, pred: spec_fn(Seq<char>) -> bool)
    requires
        0 <= i < j < list.len(),
        pred(list[i]),
        pred(list[j]),
    ensures
        list.filter(pred).len() >= 2,
    decreases list.len(),
{
    reveal(Seq::filter);
    let front = list.drop_last();
    assert(front[i] == list[i]);
    if j == list.len() - 1 {
        front.lemma_filter_contains(pred, i);
    } else {
        assert(front[j] == list[j]);
        lemma_filter_two(front, i, j, pred);
    }
}

/// A swap of the default level is seen at once in what the filter lets through: of
/// the filter for `level`, whatever is preserved, events off the blocklist that no
/// module directive speaks of pass exactly if `level` passes them, and those that
/// begin with a blocked module do not pass, but for those of the carve-out, which
/// pass if `level` passes them.
pub proof fn swapped_filters_follow_the_level(
    filter: EnvFilter,
    default_level: LevelFilter,
    preserved: Seq<char>,
    target: Seq<char>,
    level: Level,
)
    requires
        is_filter_for(filter, default_level, preserved),
        all_plain(kept_directives(preserved)),
    ensures
        (forall|i: int|
            0 <= i < kept_directives(preserved).len() && applies(
                #[trigger] kept_directives(preserved)[i],
                target,
            ) ==> bare(kept_directives(preserved)[i])) && !begins_blocked(target) ==> (
        lets_through(filter).contains((target, level)) <==> default_level.passes(level)),
        UNBLOCKED_MODULE@.is_prefix_of(target) ==> (lets_through(filter).contains((target, level))
            <==> default_level.passes(level)),
        begins_blocked(target) && !UNBLOCKED_MODULE@.is_prefix_of(target) ==> !lets_through(
            filter,
        ).contains((target, level)),
{
    let list = directives_in_force(default_level, preserved);
    lemma_kept_in_force(default_level, preserved);
    lemma_fixed_directives(default_level);
    let first = list.len() - 6;
    assert forall|i: int| 0 <= i < list.len() implies (#[trigger] list[i]).len() == 0
        || plain_directive(list[i]) by {
        if i < first {
            assert(list[i] == kept_directives(preserved)[i]);
        } else {
            assert(list[i] == fixed_directives(default_level)[i - first]);
        }
    }
    filters_let_through_what_is_admitted(filter, default_level, preserved, target, level);
    let b = blocked();
    assert(b.len() == 4 && b[0] == "wry"@ && b[1] == "tokio_tungstenite"@ && b[2]
        == "tungstenite"@ && b[3] == "tauri"@);
    if UNBLOCKED_MODULE@.is_prefix_of(target) {
        carve_out_passes_default_level(default_level, preserved, target, level);
        lemma_carve_out_is_blocked(target);
    } else if begins_blocked(target) {
        let k = if "wry"@.is_prefix_of(target) {
            0
        } else if "tokio_tungstenite"@.is_prefix_of(target) {
            1
        } else if "tungstenite"@.is_prefix_of(target) {
            2
        } else {
            3int
        };
        blocked_modules_are_silent(default_level, preserved, k, target, level);
    } else if forall|i: int|
        0 <= i < kept_directives(preserved).len() && applies(
            #[trigger] kept_directives(preserved)[i],
            target,
        ) ==> bare(kept_directives(preserved)[i]) {
        default_level_decides_the_rest(default_level, preserved, target, level);
    }
}

/// What begins with the carve-out begins with `tauri`.
proof fn lemma_carve_out_is_blocked(target: Seq<char>)
    requires
        UNBLOCKED_MODULE@.is_prefix_of(target),
    ensures
        "tauri"@.is_prefix_of(target),
{
    reveal_strlit("tauri");
    reveal_strlit("tauri_plugin_mihomo");
    assert(target.subrange(0, UNBLOCKED_MODULE@.len() as int) == UNBLOCKED_MODULE@);
    assert forall|k: int| 0 <= k < 5 implies target[k] == "tauri"@[k] by {
        assert(target.subrange(0, UNBLOCKED_MODULE@.len() as int)[k] == target[k]);
    }
    assert(target.subrange(0, 5) =~= "tauri"@);
}

} // verus!
