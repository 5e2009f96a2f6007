//! Filter directives: their parts, and which of several decides on an event.
use vstd::prelude::*;

use crate::level::{level_of, level_text, level_text_names_level, Level, LevelFilter};
use crate::text::{join, join_then_split, piece_is_within, split, split_whole, white_space};

verus! {

/// The parts of a directive: its target and its level, or the level alone.
pub open spec fn parts_of(directive: Seq<char>) -> Seq<Seq<char>> {
    split(directive, '=')
}

/// The target of a directive: what stands before its first `=`.
pub open spec fn target_of(directive: Seq<char>) -> Seq<char> {
    parts_of(directive)[0]
}

/// Whether a directive is a level alone.
pub open spec fn bare(directive: Seq<char>) -> bool {
    parts_of(directive).len() == 1
}

/// The level that a text names, or whose number it is.
pub open spec fn level_named(s: Seq<char>) -> Option<LevelFilter> {
    if s.len() == 1 && '0' <= s[0] <= '5' {
        if s[0] == '0' {
            Some(LevelFilter::Off)
        } else if s[0] == '1' {
            Some(LevelFilter::Error)
        } else if s[0] == '2' {
            Some(LevelFilter::Warn)
        } else if s[0] == '3' {
            Some(LevelFilter::Info)
        } else if s[0] == '4' {
            Some(LevelFilter::Debug)
        } else {
            Some(LevelFilter::Trace)
        }
    } else {
        level_of(s)
    }
}

/// The level that a directive sets. A target without a level lets everything
/// through.
pub open spec fn level_set_by(directive: Seq<char>) -> Option<LevelFilter> {
    if !bare(directive) && parts_of(directive).last().len() == 0 {
        Some(LevelFilter::Trace)
    } else {
        level_named(parts_of(directive).last())
    }
}

/// The characters that plain targets begin with: ASCII letters, digits, `_`, `:`
/// and `-`.
pub open spec fn plain_target_start(c: char) -> bool {
    'a' <= c <= 'z' || 'A' <= c <= 'Z' || '0' <= c <= '9' || c == '_' || c == ':' || c == '-'
}

/// A target that begins plainly and holds none of the characters that end a
/// target: no `[`, which would begin a span, no `=` and no comma.
pub open spec fn plain_target(target: Seq<char>) -> bool {
    &&& target.len() > 0
    &&& plain_target_start(target[0])
    &&& forall|i: int|
        0 <= i < target.len() ==> (#[trigger] target[i]) != '[' && target[i] != '=' && target[i]
            != ','
}

/// A directive that is a level, or a plain target, an `=` and a level or nothing.
/// A level is given by its name or by its number.
pub open spec fn plain_directive(directive: Seq<char>) -> bool {
    &&& level_set_by(directive) is Some
    &&& bare(directive) || (parts_of(directive).len() == 2 && plain_target(target_of(directive)))
}

/// Whether every directive of a list is plain or empty.
pub open spec fn all_plain(list: Seq<Seq<char>>) -> bool {
    forall|i: int| 0 <= i < list.len() ==> (#[trigger] list[i]).len() == 0 || plain_directive(list[i])
}

/// A text that can be sliced at the character positions it has without its
/// leading white space.
pub open spec fn sliceable(directive: Seq<char>) -> bool {
    ||| directive.len() == 0
    ||| !white_space(directive[0])
    ||| forall|i: int| 0 <= i < directive.len() ==> (#[trigger] directive[i]) as u32 <= 0x7f
}

/// Whether every directive of a comma-separated text can be taken apart.
pub open spec fn readable(directives: Seq<char>) -> bool {
    forall|i: int|
        0 <= i < split(directives, ',').len() ==> sliceable(#[trigger] split(directives, ',')[i])
}

/// ASCII text can always be taken apart.
pub proof fn ascii_is_readable(directives: Seq<char>)
    requires
        forall|i: int| 0 <= i < directives.len() ==> (#[trigger] directives[i]) as u32 <= 0x7f,
    ensures
        readable(directives),
{
    let parts = split(directives, ',');
    assert forall|i: int| 0 <= i < parts.len() implies sliceable(#[trigger] parts[i]) by {
        assert forall|k: int| 0 <= k < parts[i].len() implies (#[trigger] parts[i][k]) as u32
            <= 0x7f by {
            assert(parts[i].contains(parts[i][k]));
            piece_is_within(directives, i, ',', parts[i][k]);
        }
    }
}

/// Whether a directive speaks of `target`: it is a level alone, or its own target
/// is a prefix.
pub open spec fn applies(directive: Seq<char>, target: Seq<char>) -> bool {
    directive.len() > 0 && (bare(directive) || target_of(directive).is_prefix_of(target))
}

/// How specific a directive is.
pub open spec fn reach(directive: Seq<char>) -> nat {
    if bare(directive) {
        0
    } else {
        1 + target_of(directive).len()
    }
}

/// Whether the directive at `i` decides on `target`: of those that apply it is
/// the most specific, and the last of the equally specific ones.
pub open spec fn decides(list: Seq<Seq<char>>, target: Seq<char>, i: int) -> bool {
    &&& 0 <= i < list.len()
    &&& applies(list[i], target)
    &&& forall|j: int|
        0 <= j < list.len() && applies(#[trigger] list[j], target) ==> reach(list[j]) < reach(
            list[i],
        ) || (reach(list[j]) == reach(list[i]) && j <= i)
}

/// Whether a list of plain directives lets events of `target` and `level`
/// through.
pub open spec fn admits(list: Seq<Seq<char>>, target: Seq<char>, level: Level) -> bool {
    exists|i: int|
        #[trigger] decides(list, target, i) && level_set_by(list[i])->0.passes(level)
}

/// The targets and levels of the events that a list of plain directives lets
/// through.
pub open spec fn admitted(list: Seq<Seq<char>>) -> Set<(Seq<char>, Level)> {
    Set::new(|event: (Seq<char>, Level)| admits(list, event.0, event.1))
}

/// Where a directive decides, its level is what counts: at most one does.
pub proof fn decision_is_unique(list: Seq<Seq<char>>, target: Seq<char>, level: Level, i: int)
    requires
        decides(list, target, i),
    ensures
        admits(list, target, level) <==> level_set_by(list[i])->0.passes(level),
{
    if admits(list, target, level) {
        let j = choose|j: int|
            #[trigger] decides(list, target, j) && level_set_by(list[j])->0.passes(level);
        assert(i == j);
    }
}

/// The name of a level is a plain directive that sets that level.
pub proof fn level_alone_is_plain(level: LevelFilter)
    ensures
        plain_directive(level_text(level)),
        bare(level_text(level)),
        level_set_by(level_text(level)) == Some(level),
        target_of(level_text(level)) == level_text(level),
        !level_text(level).contains(','),
        sliceable(level_text(level)),
{
    level_text_names_level(level);
    assert(!level_text(level).contains('='));
    split_whole(level_text(level), '=');
    assert('a' <= level_text(level)[0] <= 'z');
}

/// A plain target, an `=` and the name of a level are a plain directive of that
/// target and level.
pub proof fn target_and_level_are_plain(target: Seq<char>, level: LevelFilter)
    requires
        plain_target(target),
    ensures
        ({
            let directive = target.push('=') + level_text(level);
            &&& plain_directive(directive)
            &&& !bare(directive)
            &&& target_of(directive) == target
            &&& level_set_by(directive) == Some(level)
            &&& !directive.contains(',')
            &&& sliceable(directive)
        }),
{
    level_text_names_level(level);
    let directive = target.push('=') + level_text(level);
    assert forall|i: int| 0 <= i < directive.len() implies directive[i] != ',' by {
        if i < target.len() {
            assert(directive[i] == target[i]);
        } else if i > target.len() {
            assert(directive[i] == level_text(level)[i - target.len() - 1]);
        }
    }
    assert(!target.contains('='));
    let parts = seq![target, level_text(level)];
    assert(join(parts, '=') =~= directive) by {
        reveal_with_fuel(join, 2);
        assert(parts.drop_last() =~= seq![target]);
    }
    assert(!level_text(level).contains('='));
    assert forall|i: int| 0 <= i < parts.len() implies !(#[trigger] parts[i]).contains('=') by {
        assert(i == 0 || i == 1);
    }
    join_then_split(parts, '=');
    assert(directive[0] == target[0]);
}

} // verus!
