//! Filter directives: what is kept of `RUST_LOG`, the blocklist, and the level
//! that can be swapped at run time.
use vstd::prelude::*;

use crate::directive::{
    admitted, all_plain, level_alone_is_plain, plain_directive, plain_target, readable, sliceable,
    target_and_level_are_plain, target_of,
};
use crate::external::{
    all_understood, env_filter_try_new, lets_through, parse_level_filter, parsed_filter,
    reload_filter, understood,
};
use crate::level::{level_name, level_of, level_of_letters, level_text, LevelFilter};
use crate::text::{
    chars_of, contains_char, is_white_space, join, join_texts, join_then_split, split,
    split_text, split_then_join, starts_with, texts, trim, trimmed, trimmed_keeps_the_rest,
    white_space,
};
use tracing_subscriber::filter::ParseError;
use tracing_subscriber::reload::Handle;
use tracing_subscriber::{EnvFilter, Registry};

verus! {

/// Carve-out from the blocked `tauri` prefix. Targets are matched by prefix, so
/// `tauri=off` would silence this module too; a longer target wins.
pub const UNBLOCKED_MODULE: &'static str = "tauri_plugin_mihomo";

/// The modules that are silenced whatever the default level is.
pub open spec fn blocked() -> Seq<Seq<char>> {
    seq!["wry"@, "tokio_tungstenite"@, "tungstenite"@, "tauri"@]
}

/// The modules that are silenced whatever the default level is.
pub fn blocked_modules() -> (modules: Vec<&'static str>)
    ensures
        modules@.map_values(|m: &'static str| m@) == blocked(),
{
    let modules: Vec<&'static str> = vec!["wry", "tokio_tungstenite", "tungstenite", "tauri"];
    assert(modules@.map_values(|m: &'static str| m@) =~= blocked());
    modules
}

/// Whether the target of a directive begins with the carve-out or with a blocked
/// module. A directive without a target, such as `[span]=trace`, is not reserved:
/// within that span it lets events of every module through.
pub open spec fn reserved(directive: Seq<char>) -> bool {
    ||| UNBLOCKED_MODULE@.is_prefix_of(target_of(directive))
    ||| exists|i: int|
        0 <= i < blocked().len() && (#[trigger] blocked()[i]).is_prefix_of(target_of(directive))
}

/// The directives that may stand beside the blocklist.
pub open spec fn unreserved() -> spec_fn(Seq<char>) -> bool {
    |directive: Seq<char>| !reserved(directive)
}

/// The directives of a comma-separated text that may stand beside the
/// blocklist, in order.
pub open spec fn kept_directives(preserved: Seq<char>) -> Seq<Seq<char>> {
    split(preserved, ',').filter(unreserved())
}

/// The directives of a filter with the given default level: those kept of
/// `preserved`, the default level, the blocklist, and the carve-out at the
/// default level.
pub open spec fn directive_list(default_level: LevelFilter, preserved: Seq<char>) -> Seq<
    Seq<char>,
> {
    let kept = kept_directives(preserved);
    (if join(kept, ',').len() == 0 {
        Seq::empty()
    } else {
        kept
    }) + fixed_directives(default_level)
}

/// The directives that every filter with the given default level ends in.
pub open spec fn fixed_directives(default_level: LevelFilter) -> Seq<Seq<char>> {
    seq![
        level_text(default_level),
        "wry"@ + "=off"@,
        "tokio_tungstenite"@ + "=off"@,
        "tungstenite"@ + "=off"@,
        "tauri"@ + "=off"@,
        UNBLOCKED_MODULE@.push('=') + level_text(default_level),
    ]
}

/// The directive text of a filter with the given default level.
pub open spec fn directive_text(default_level: LevelFilter, preserved: Seq<char>) -> Seq<char> {
    join(directive_list(default_level, preserved), ',')
}

/// Whether a directive fights the blocklist or the carve-out. Conflicts between
/// directives are resolved by how specific their targets are, and targets are
/// matched by prefix, so a `wry::event_loop=info` would override `wry=off`, and so
/// would a `wryly=info`.
pub fn is_reserved(directive: &str) -> (res: bool)
    ensures
        res == reserved(directive@),
{
    let parts = split_text(directive, '=');
    proof {
        split_then_join(directive@, '=');
        assert(texts(parts@)[0] == parts@[0]@);
    }
    let target = parts[0].as_str();
    if starts_with(target, UNBLOCKED_MODULE) {
        return true;
    }
    let modules = blocked_modules();
    let mut i: usize = 0;
    while i < modules.len()
        invariant
            i <= modules.len(),
            modules@.map_values(|m: &'static str| m@) == blocked(),
            target@ == target_of(directive@),
            !UNBLOCKED_MODULE@.is_prefix_of(target@),
            forall|k: int| 0 <= k < i ==> !(#[trigger] blocked()[k]).is_prefix_of(target@),
        decreases modules.len() - i,
    {
        assert(modules@.map_values(|m: &'static str| m@)[i as int] == modules@[i as int]@);
        if starts_with(target, modules[i]) {
            assert(blocked()[i as int].is_prefix_of(target@));
            return true;
        }
        i += 1;
    }
    assert(blocked().len() == modules@.map_values(|m: &'static str| m@).len());
    false
}

/// Drops the directives that would fight the blocklist or the carve-out.
pub fn sanitize_preserved(preserved: &str) -> (res: String)
    ensures
        res@ == join(kept_directives(preserved@), ','),
{
    let tokens = split_text(preserved, ',');
    let mut kept: Vec<String> = Vec::new();
    let mut i: usize = 0;
    reveal(Seq::filter);
    assert(texts(kept@) =~= texts(tokens@).take(0).filter(unreserved()));
    while i < tokens.len()
        invariant
            i <= tokens.len(),
            texts(kept@) == texts(tokens@).take(i as int).filter(unreserved()),
        decreases tokens.len() - i,
    {
        reveal(Seq::filter);
        let ghost upto = texts(tokens@).take(i + 1);
        assert(upto.drop_last() =~= texts(tokens@).take(i as int));
        assert(upto.last() == tokens@[i as int]@);
        assert(unreserved()(upto.last()) == !reserved(tokens@[i as int]@));
        if !is_reserved(tokens[i].as_str()) {
            let ghost before = kept@;
            kept.push(tokens[i].clone());
            assert(texts(kept@) =~= texts(before).push(tokens@[i as int]@));
        }
        i += 1;
    }
    assert(texts(tokens@).take(i as int) =~= texts(tokens@));
    join_texts(&kept, ',')
}

/// A list joined with one more part behind it.
proof fn lemma_join_push(parts: Seq<Seq<char>>, part: Seq<char>, sep: char)
    requires
        parts.len() >= 1,
    ensures
        join(parts.push(part), sep) == join(parts, sep).push(sep) + part,
{
    assert(parts.push(part).drop_last() =~= parts);
}

/// Whether every directive of `directives` can be taken apart.
pub fn is_readable(directives: &str) -> (res: bool)
    ensures
        res == readable(directives@),
{
    let tokens = split_text(directives, ',');
    let mut i: usize = 0;
    while i < tokens.len()
        invariant
            i <= tokens.len(),
            texts(tokens@) == split(directives@, ','),
            forall|k: int| 0 <= k < i ==> sliceable(#[trigger] split(directives@, ',')[k]),
        decreases tokens.len() - i,
    {
        assert(texts(tokens@)[i as int] == tokens@[i as int]@);
        if !is_sliceable(tokens[i].as_str()) {
            assert(!sliceable(split(directives@, ',')[i as int]));
            return false;
        }
        i += 1;
    }
    assert(texts(tokens@).len() == tokens.len());
    true
}

/// Whether `directive` can be sliced at the positions of its trimmed text.
fn is_sliceable(directive: &str) -> (res: bool)
    ensures
        res == sliceable(directive@),
{
    let chars = chars_of(directive);
    if chars.len() == 0 || !is_white_space(chars[0]) {
        return true;
    }
    let mut i: usize = 0;
    while i < chars.len()
        invariant
            i <= chars.len(),
            chars@ == directive@,
            directive@.len() > 0,
            white_space(directive@[0]),
            forall|k: int| 0 <= k < i ==> (#[trigger] directive@[k]) as u32 <= 0x7f,
        decreases chars.len() - i,
    {
        if chars[i] as u32 > 0x7f {
            assert(directive@[i as int] as u32 > 0x7f);
            return false;
        }
        i += 1;
    }
    true
}

/// The full directive text: the sanitized module directives, the default level,
/// the blocklist, and the carve-out at the default level. No white space is put
/// after the commas: `EnvFilter` would not accept it.
pub fn compose_directives(default_level: LevelFilter, preserved: &str) -> (res: String)
    ensures
        res@ == directive_text(default_level, preserved@),
{
    let ghost kept = kept_directives(preserved@);
    let sanitized = sanitize_preserved(preserved);
    let mut directives = String::new();
    let ghost mut list: Seq<Seq<char>> = Seq::empty();
    if !sanitized.as_str().is_empty() {
        directives.append(sanitized.as_str());
        directives.push(',');
        proof {
            list = kept;
        }
    }
    directives.append(level_name(default_level));
    proof {
        let level = level_text(default_level);
        if list.len() == 0 {
            assert(list.push(level).len() == 1);
            assert(directives@ =~= join(list.push(level), ','));
        } else {
            lemma_join_push(list, level, ',');
            assert(directives@ =~= join(list.push(level), ','));
        }
        list = list.push(level);
    }
    let ghost head = list;
    let modules = blocked_modules();
    let mut i: usize = 0;
    while i < modules.len()
        invariant
            i <= modules.len(),
            modules@.map_values(|m: &'static str| m@) == blocked(),
            list.len() >= 1,
            list == head + Seq::new(i as nat, |k: int| blocked()[k] + "=off"@),
            directives@ == join(list, ','),
        decreases modules.len() - i,
    {
        let module = modules[i];
        assert(modules@.map_values(|m: &'static str| m@)[i as int] == module@);
        directives.push(',');
        directives.append(module);
        directives.append("=off");
        proof {
            let part = module@ + "=off"@;
            lemma_join_push(list, part, ',');
            assert(directives@ =~= join(list.push(part), ','));
            assert(list.push(part) =~= head + Seq::new(
                (i + 1) as nat,
                |k: int| blocked()[k] + "=off"@,
            ));
            list = list.push(part);
        }
        i += 1;
    }
    directives.push(',');
    directives.append(UNBLOCKED_MODULE);
    directives.push('=');
    directives.append(level_name(default_level));
    proof {
        let part = UNBLOCKED_MODULE@.push('=') + level_text(default_level);
        lemma_join_push(list, part, ',');
        assert(directives@ =~= join(list.push(part), ','));
        assert(blocked().len() == modules@.map_values(|m: &'static str| m@).len());
        assert(list.push(part) =~= directive_list(default_level, preserved@));
    }
    directives
}

/// The names of the blocked modules and of the carve-out are plain targets.
pub proof fn lemma_module_names()
    ensures
        forall|i: int| 0 <= i < blocked().len() ==> plain_target(#[trigger] blocked()[i]),
        plain_target(UNBLOCKED_MODULE@),
{
    reveal_strlit("wry");
    reveal_strlit("tokio_tungstenite");
    reveal_strlit("tungstenite");
    reveal_strlit("tauri");
    reveal_strlit("tauri_plugin_mihomo");
}

/// A blocked module's directive, written as a target and the level `off`.
pub proof fn lemma_blocked_directive(i: int)
    requires
        0 <= i < blocked().len(),
    ensures
        blocked()[i] + "=off"@ == blocked()[i].push('=') + level_text(LevelFilter::Off),
        fixed_directives(LevelFilter::Off)[i + 1] == blocked()[i] + "=off"@,
{
    reveal_strlit("=off");
    reveal_strlit("off");
    assert(blocked()[i] + "=off"@ =~= blocked()[i].push('=') + level_text(LevelFilter::Off));
}

/// The fixed directives are plain and hold no comma.
pub proof fn lemma_fixed_directives(level: LevelFilter)
    ensures
        forall|i: int|
            0 <= i < 6 ==> {
                &&& plain_directive(#[trigger] fixed_directives(level)[i])
                &&& sliceable(fixed_directives(level)[i])
                &&& !fixed_directives(level)[i].contains(',')
            },
{
    level_alone_is_plain(level);
    lemma_module_names();
    let list = fixed_directives(level);
    assert forall|i: int| 0 <= i < 6 implies {
        &&& plain_directive(#[trigger] list[i])
        &&& sliceable(list[i])
        &&& !list[i].contains(',')
    } by {
        if i == 0 {
            assert(list[0] == level_text(level));
        } else if i < 5 {
            lemma_blocked_directive(i - 1);
            assert(list[i] == blocked()[i - 1] + "=off"@);
            target_and_level_are_plain(blocked()[i - 1], LevelFilter::Off);
        } else {
            target_and_level_are_plain(UNBLOCKED_MODULE@, level);
        }
    }
}

/// What is kept of a text is among its directives, and none of it is reserved.
pub proof fn lemma_kept(preserved: Seq<char>, i: int)
    requires
        0 <= i < kept_directives(preserved).len(),
    ensures
        split(preserved, ',').contains(kept_directives(preserved)[i]),
        !reserved(kept_directives(preserved)[i]),
        !kept_directives(preserved)[i].contains(','),
{
    let parts = split(preserved, ',');
    let kept = kept_directives(preserved);
    parts.lemma_filter_pred(unreserved(), i);
    assert(kept.contains(kept[i]));
    parts.lemma_filter_contains_rev(unreserved(), kept[i]);
    split_then_join(preserved, ',');
    let k = choose|k: int| 0 <= k < parts.len() && parts[k] == kept[i];
    assert(!parts[k].contains(','));
}

/// The directives of a filter are what its text splits into.
pub proof fn directive_text_splits(level: LevelFilter, preserved: Seq<char>)
    ensures
        split(directive_text(level, preserved), ',') == directive_list(level, preserved),
{
    let list = directive_list(level, preserved);
    let kept = kept_directives(preserved);
    lemma_fixed_directives(level);
    assert forall|i: int| 0 <= i < list.len() implies !(#[trigger] list[i]).contains(',') by {
        let first = list.len() - 6;
        if i < first {
            lemma_kept(preserved, i);
            assert(list[i] == kept[i]);
        } else {
            assert(list[i] == fixed_directives(level)[i - first]);
        }
    }
    join_then_split(list, ',');
}

/// The directive text of a filter can be taken apart where what is preserved
/// can.
proof fn lemma_directive_text(level: LevelFilter, preserved: Seq<char>)
    requires
        readable(preserved),
    ensures
        readable(directive_text(level, preserved)),
{
    directive_text_splits(level, preserved);
    lemma_fixed_directives(level);
    let list = directive_list(level, preserved);
    let first = list.len() - 6;
    assert forall|i: int| 0 <= i < list.len() implies sliceable(#[trigger] list[i]) by {
        if i < first {
            lemma_kept(preserved, i);
        } else {
            assert(list[i] == fixed_directives(level)[i - first]);
        }
    }
}

/// The directives of a comma-separated text, each without the white space
/// around it.
pub open spec fn trimmed_directives(raw: Seq<char>) -> Seq<Seq<char>> {
    split(raw, ',').map_values(|directive: Seq<char>| trimmed(directive))
}

/// The directives that name a target: those with an `=`.
pub open spec fn names_target() -> spec_fn(Seq<char>) -> bool {
    |directive: Seq<char>| directive.len() > 0 && directive.contains('=')
}

/// The module directives of a `RUST_LOG` value, in order, separated by commas.
pub open spec fn module_directives(rust_log: Option<Seq<char>>) -> Seq<char> {
    match rust_log {
        Some(raw) => join(trimmed_directives(raw).filter(names_target()), ','),
        None => Seq::empty(),
    }
}

/// Keeps only the module directives (`target=level`) of a `RUST_LOG` value. A
/// bare level among them is the default level, see [`default_env_level`].
pub fn preserved_module_directives(rust_log: Option<&str>) -> (preserved: String)
    ensures
        preserved@ == module_directives(
            match rust_log {
                Some(raw) => Some(raw@),
                None => None,
            },
        ),
        readable(preserved@),
{
    let raw = match rust_log {
        Some(raw) => raw,
        None => {
            proof {
                lemma_empty_is_readable();
            }
            return String::new();
        },
    };
    let tokens = split_text(raw, ',');
    let mut kept: Vec<String> = Vec::new();
    let mut i: usize = 0;
    reveal(Seq::filter);
    assert(texts(kept@) =~= trimmed_directives(raw@).take(0).filter(names_target()));
    while i < tokens.len()
        invariant
            i <= tokens.len(),
            texts(tokens@) == split(raw@, ','),
            texts(kept@) == trimmed_directives(raw@).take(i as int).filter(names_target()),
        decreases tokens.len() - i,
    {
        reveal(Seq::filter);
        let token = trim(tokens[i].as_str());
        let ghost upto = trimmed_directives(raw@).take(i + 1);
        assert(upto.drop_last() =~= trimmed_directives(raw@).take(i as int));
        assert(texts(tokens@)[i as int] == tokens@[i as int]@);
        assert(upto.last() == token@);
        assert(names_target()(upto.last()) == (token@.len() > 0 && token@.contains('=')));
        if !token.as_str().is_empty() && contains_char(token.as_str(), '=') {
            let ghost before = kept@;
            let ghost piece = token@;
            kept.push(token);
            assert(texts(kept@) =~= texts(before).push(piece));
        }
        i += 1;
    }
    proof {
        assert(texts(tokens@).len() == trimmed_directives(raw@).len());
        assert(trimmed_directives(raw@).take(i as int) =~= trimmed_directives(raw@));
        lemma_module_directives(raw@);
    }
    join_texts(&kept, ',')
}

proof fn lemma_empty_is_readable()
    ensures
        readable(Seq::empty()),
{
    assert(split(Seq::empty(), ',')[0].len() == 0);
}

/// The kept directives of a `RUST_LOG` value: each is a trimmed directive with
/// an `=` and no comma.
pub proof fn lemma_kept_module_directive(raw: Seq<char>, i: int)
    requires
        0 <= i < trimmed_directives(raw).filter(names_target()).len(),
    ensures
        ({
            let directive = trimmed_directives(raw).filter(names_target())[i];
            &&& directive.len() > 0
            &&& directive.contains('=')
            &&& !directive.contains(',')
            &&& !white_space(directive[0])
            &&& trimmed(directive) == directive
            &&& trimmed_directives(raw).contains(directive)
        }),
{
    let all = trimmed_directives(raw);
    let kept = all.filter(names_target());
    all.lemma_filter_pred(names_target(), i);
    assert(kept.contains(kept[i]));
    all.lemma_filter_contains_rev(names_target(), kept[i]);
    let k = choose|k: int| 0 <= k < all.len() && all[k] == kept[i];
    let token = split(raw, ',')[k];
    split_then_join(raw, ',');
    assert(!token.contains(','));
    trimmed_keeps_the_rest(token);
}

/// What is kept of a `RUST_LOG` value splits into the kept directives, and can
/// be taken apart.
pub proof fn lemma_module_directives(raw: Seq<char>)
    ensures
        readable(module_directives(Some(raw))),
        trimmed_directives(raw).filter(names_target()).len() > 0 ==> split(
            module_directives(Some(raw)),
            ',',
        ) == trimmed_directives(raw).filter(names_target()),
{
    let kept = trimmed_directives(raw).filter(names_target());
    if kept.len() == 0 {
        lemma_empty_is_readable();
    } else {
        assert forall|i: int| 0 <= i < kept.len() implies !(#[trigger] kept[i]).contains(
            ',',
        ) && sliceable(kept[i]) by {
            lemma_kept_module_directive(raw, i);
        }
        join_then_split(kept, ',');
    }
}

/// A `RUST_LOG` value that is one bare level, in whatever case; `None` where the
/// variable is not set, is blank, or holds directives.
pub fn bare_env_level(rust_log: Option<&str>) -> (res: Option<LevelFilter>)
    ensures
        res == match rust_log {
            Some(raw) => level_of(trimmed(raw@)),
            None => None,
        },
{
    let raw = match rust_log {
        Some(raw) => trim(raw),
        None => {
            return None;
        },
    };
    if contains_char(raw.as_str(), ',') || contains_char(raw.as_str(), '=')
        || raw.as_str().is_empty() {
        proof {
            if level_of(raw@) is Some {
                level_of_letters(raw@);
            }
        }
        return None;
    }
    parse_level_filter(raw.as_str())
}

/// The directives that are a level alone.
pub open spec fn names_level() -> spec_fn(Seq<char>) -> bool {
    |directive: Seq<char>| level_of(directive) is Some
}

/// The bare levels among the directives of a `RUST_LOG` value, in order.
pub open spec fn bare_levels(raw: Seq<char>) -> Seq<Seq<char>> {
    trimmed_directives(raw).filter(names_level())
}

/// The default level that a `RUST_LOG` value asks for: its one bare level, alone
/// or beside module directives. Where there are several, none is.
pub open spec fn level_asked_for(rust_log: Option<Seq<char>>) -> Option<LevelFilter> {
    match rust_log {
        Some(raw) => if bare_levels(raw).len() == 1 {
            level_of(bare_levels(raw)[0])
        } else {
            None
        },
        None => None,
    }
}

/// The default level that a `RUST_LOG` value asks for.
pub fn default_env_level(rust_log: Option<&str>) -> (res: Option<LevelFilter>)
    ensures
        res == level_asked_for(
            match rust_log {
                Some(raw) => Some(raw@),
                None => None,
            },
        ),
{
    let raw = match rust_log {
        Some(raw) => raw,
        None => {
            return None;
        },
    };
    let tokens = split_text(raw, ',');
    let mut found: Vec<LevelFilter> = Vec::new();
    let ghost mut levels: Seq<Seq<char>> = Seq::empty();
    let mut i: usize = 0;
    reveal(Seq::filter);
    assert(levels =~= trimmed_directives(raw@).take(0).filter(names_level()));
    while i < tokens.len()
        invariant
            i <= tokens.len(),
            texts(tokens@) == split(raw@, ','),
            levels == trimmed_directives(raw@).take(i as int).filter(names_level()),
            found.len() == levels.len(),
            forall|k: int|
                0 <= k < found.len() ==> level_of(#[trigger] levels[k]) == Some(found@[k]),
        decreases tokens.len() - i,
    {
        reveal(Seq::filter);
        let ghost upto = trimmed_directives(raw@).take(i + 1);
        assert(upto.drop_last() =~= trimmed_directives(raw@).take(i as int));
        assert(texts(tokens@)[i as int] == tokens@[i as int]@);
        assert(upto.last() == trimmed(tokens@[i as int]@));
        assert(names_level()(upto.last()) == (level_of(upto.last()) is Some));
        if let Some(level) = bare_env_level(Some(tokens[i].as_str())) {
            found.push(level);
            proof {
                levels = levels.push(upto.last());
            }
        }
        i += 1;
    }
    assert(texts(tokens@).len() == trimmed_directives(raw@).len());
    assert(trimmed_directives(raw@).take(i as int) =~= trimmed_directives(raw@));
    if found.len() == 1 {
        assert(level_of(levels[0]) == Some(found@[0]));
        Some(found[0])
    } else {
        None
    }
}

/// With nothing preserved every directive of a filter is plain.
pub proof fn blocklist_alone_is_plain(level: LevelFilter)
    ensures
        directive_list(level, Seq::empty()) == fixed_directives(level),
        all_plain(fixed_directives(level)),
        all_understood(directive_list(level, Seq::empty())),
{
    let nothing = Seq::<char>::empty();
    lemma_fixed_directives(level);
    let kept = kept_directives(nothing);
    split(nothing, ',').lemma_filter_len(unreserved());
    assert(join(kept, ',').len() == 0) by {
        if kept.len() == 1 {
            lemma_kept(nothing, 0);
            assert(kept[0] == split(nothing, ',')[0]);
        }
    }
    assert(directive_list(level, nothing) =~= fixed_directives(level));
}

/// A filter with the given default level, or why one of the directives was not
/// understood.
pub fn try_build_filter(default_level: LevelFilter, preserved: &str) -> (res: Result<
    EnvFilter,
    ParseError,
>)
    requires
        readable(preserved@),
    ensures
        res == parsed_filter(directive_text(default_level, preserved@)),
        res is Ok <==> all_understood(directive_list(default_level, preserved@)),
        res matches Ok(filter) ==> all_plain(directive_list(default_level, preserved@))
            ==> lets_through(filter) == admitted(directive_list(default_level, preserved@)),
{
    let directives = compose_directives(default_level, preserved);
    proof {
        lemma_directive_text(default_level, preserved@);
        directive_text_splits(default_level, preserved@);
    }
    env_filter_try_new(directives.as_str())
}

/// What is used of the preserved directives: all of them, or none where one is
/// not understood.
pub open spec fn used(default_level: LevelFilter, preserved: Seq<char>) -> Seq<char> {
    if all_understood(directive_list(default_level, preserved)) {
        preserved
    } else {
        Seq::empty()
    }
}

/// The directives of the filter with the given default level.
pub open spec fn directives_in_force(default_level: LevelFilter, preserved: Seq<char>) -> Seq<
    Seq<char>,
> {
    directive_list(default_level, used(default_level, preserved))
}

/// Whether `filter` is the filter with the given default level: it is made of the
/// directives in force, and where they are all plain it lets through what they
/// admit.
pub open spec fn is_filter_for(
    filter: EnvFilter,
    default_level: LevelFilter,
    preserved: Seq<char>,
) -> bool {
    &&& parsed_filter(join(directives_in_force(default_level, preserved), ',')) == Ok::<
        EnvFilter,
        ParseError,
    >(filter)
    &&& all_plain(directives_in_force(default_level, preserved)) ==> lets_through(filter)
        == admitted(directives_in_force(default_level, preserved))
}

/// The filter with the given default level, and the complaint about the preserved
/// directives where they are not understood. All of them are dropped then; the
/// blocklist alone is always understood.
pub fn build_filter_checked(default_level: LevelFilter, preserved: &str) -> (res: (
    EnvFilter,
    Option<ParseError>,
))
    requires
        readable(preserved@),
    ensures
        is_filter_for(res.0, default_level, preserved@),
        match res.1 {
            Some(error) => parsed_filter(directive_text(default_level, preserved@)) == Err::<
                EnvFilter,
                ParseError,
            >(error),
            None => all_understood(directive_list(default_level, preserved@)),
        },
{
    match try_build_filter(default_level, preserved) {
        Ok(filter) => (filter, None),
        Err(error) => {
            proof {
                reveal_strlit("");
                assert(""@ =~= Seq::<char>::empty());
                lemma_empty_is_readable();
                blocklist_alone_is_plain(default_level);
            }
            (try_build_filter(default_level, "").unwrap(), Some(error))
        },
    }
}

/// The filter with the given default level.
pub fn build_filter(default_level: LevelFilter, preserved: &str) -> (filter: EnvFilter)
    requires
        readable(preserved@),
    ensures
        is_filter_for(filter, default_level, preserved@),
{
    build_filter_checked(default_level, preserved).0
}

/// Why a filter could not be swapped.
#[derive(Clone, Copy, Debug, PartialEq, Eq, Structural)]
pub enum ReloadFailure {
    /// The subscriber that held the filter no longer exists.
    SubscriberGone,
    /// A panic on another thread poisoned the filter's lock.
    Poisoned,
}

impl ReloadFailure {
    /// The failure in words.
    pub open spec fn text(self) -> Seq<char> {
        "failed to reload tracing filter: "@ + match self {
            ReloadFailure::SubscriberGone => "subscriber no longer exists"@,
            ReloadFailure::Poisoned => "lock poisoned"@,
        }
    }

    /// The failure in words.
    pub fn message(&self) -> (res: String)
        ensures
            res@ == self.text(),
    {
        let cause = match self {
            ReloadFailure::SubscriberGone => "subscriber no longer exists",
            ReloadFailure::Poisoned => "lock poisoned",
        };
        "failed to reload tracing filter: ".to_owned().concat(cause)
    }
}

/// Swaps the default level of a live filter; the module directives of `RUST_LOG`
/// and the blocklist stay.
pub struct FilterHandle {
    reload: Handle<EnvFilter, Registry>,
    preserved: String,
}

impl Clone for FilterHandle {
    fn clone(&self) -> (res: Self)
        ensures
            res == *self,
    {
        proof {
            use_type_invariant(self);
        }
        FilterHandle { reload: self.reload.clone(), preserved: self.preserved.clone() }
    }
}

impl FilterHandle {
    /// The handle on the filter that is swapped.
    pub closed spec fn reload_handle(&self) -> Handle<EnvFilter, Registry> {
        self.reload
    }

    /// The module directives that survive every swap.
    pub closed spec fn preserved(&self) -> Seq<char> {
        self.preserved@
    }

    #[verifier::type_invariant]
    spec fn preserved_is_readable(self) -> bool {
        readable(self.preserved@)
    }

    /// A handle on the filter behind `reload`, which keeps `preserved`.
    pub fn new(reload: Handle<EnvFilter, Registry>, preserved: &str) -> (res: Self)
        requires
            readable(preserved@),
        ensures
            res.reload_handle() == reload,
            res.preserved() == preserved@,
    {
        FilterHandle { reload, preserved: preserved.to_owned() }
    }

    /// The complaint about the preserved directives that a swap to `level` would
    /// drop, if any.
    pub fn complaint(&self, level: LevelFilter) -> (res: Option<ParseError>)
        ensures
            match res {
                Some(error) => parsed_filter(directive_text(level, self.preserved())) == Err::<
                    EnvFilter,
                    ParseError,
                >(error),
                None => all_understood(directive_list(level, self.preserved())),
            },
    {
        proof {
            use_type_invariant(self);
        }
        build_filter_checked(level, self.preserved.as_str()).1
    }

    /// Whether the subscriber, asked to take `filter`, may have answered `answer`.
    pub closed spec fn handed_over(
        &self,
        filter: EnvFilter,
        answer: Result<(), ReloadFailure>,
    ) -> bool {
        call_ensures(reload_filter, (&self.reload_handle(), filter), answer)
    }

    /// Replaces the default level, and the carve-out's with it: hands the filter
    /// for `level` to the subscriber and passes its answer on. The module
    /// directives of `RUST_LOG` survive the swap.
    pub fn set_default_level(&self, level: LevelFilter) -> (res: Result<(), ReloadFailure>)
        ensures
            exists|filter: EnvFilter|
                is_filter_for(filter, level, self.preserved())
                    && #[trigger] self.handed_over(filter, res),
    {
        proof {
            use_type_invariant(self);
        }
        let filter = build_filter(level, self.preserved.as_str());
        let ghost handed = filter;
        let answer = answer_of(reload_filter, &self.reload, filter);
        assert(self.handed_over(handed, answer));
        answer
    }
}

/// Where a filter was handed over, the handle was asked to take it and gave the
/// answer.
proof fn answers_come_from_the_handle(
    handle: FilterHandle,
    filter: EnvFilter,
    answer: Result<(), ReloadFailure>,
)
    requires
        handle.handed_over(filter, answer),
    ensures
        call_ensures(reload_filter, (&handle.reload_handle(), filter), answer),
{
}

/// The answer of `reload` to being called with `filter`.
fn answer_of<
    F: FnOnce(&Handle<EnvFilter, Registry>, EnvFilter) -> Result<(), ReloadFailure>,
>(reload: F, handle: &Handle<EnvFilter, Registry>, filter: EnvFilter) -> (answer: Result<
    (),
    ReloadFailure,
>)
    requires
        reload.requires((handle, filter)),
    ensures
        reload.ensures((handle, filter), answer),
{
    reload(handle, filter)
}

} // verus!
