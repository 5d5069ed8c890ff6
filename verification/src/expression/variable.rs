use vstd::prelude::*;

use crate::context::block::BlockContext;
use crate::context::local_map::keys_sorted;
use crate::text::{join, join_strings, same_text};

verus! {

/// The Levenshtein distance: the least number of single-character
/// insertions, deletions and substitutions that turn `a` into `b`.
pub open spec fn levenshtein_distance(a: Seq<char>, b: Seq<char>) -> nat
    decreases a.len() + b.len(),
{
    if a.len() == 0 {
        b.len()
    } else if b.len() == 0 {
        a.len()
    } else {
        let delete = levenshtein_distance(a.drop_first(), b) + 1;
        let insert = levenshtein_distance(a, b.drop_first()) + 1;
        let substitute = levenshtein_distance(a.drop_first(), b.drop_first()) + if a[0] == b[0] {
            0nat
        } else {
            1nat
        };
        if delete <= insert && delete <= substitute {
            delete
        } else if insert <= substitute {
            insert
        } else {
            substitute
        }
    }
}

/// The Levenshtein distance between two strings, counted in characters
/// (`strsim::levenshtein`).
#[verifier::external_body]
fn levenshtein(a: &str, b: &str) -> (r: usize)
    ensures
        r == levenshtein_distance(a@, b@),
{
    strsim::levenshtein(a, b)
}

/// The non-empty keys of `keys` (in order) whose distance to `target` is
/// exactly `d`.
pub open spec fn names_at_distance(keys: Seq<Seq<char>>, target: Seq<char>, d: nat) -> Seq<Seq<char>>
    decreases keys.len(),
{
    if keys.len() == 0 {
        seq![]
    } else {
        let rest = names_at_distance(keys.drop_last(), target, d);
        let k = keys.last();
        if k.len() > 0 && levenshtein_distance(target, k) == d {
            rest.push(k)
        } else {
            rest
        }
    }
}

/// The variables whose names are within three edits of `target` but not
/// equal to it, closest first; names at the same distance keep the order of
/// the variable ids.
pub open spec fn similar_names(keys: Seq<Seq<char>>, target: Seq<char>) -> Seq<Seq<char>> {
    names_at_distance(keys, target, 1) + names_at_distance(keys, target, 2) + names_at_distance(
        keys,
        target,
        3,
    )
}

/// The names of the local variables that `target` may be a misspelling of:
/// the non-empty names at Levenshtein distance 1 to 3 from it, sorted by
/// distance, ties in name order.
pub fn find_similar_variable_names<T>(context: &BlockContext<T>, target: &str) -> (r: Vec<String>)
    ensures
        r@.map_values(|s: String| s@) == similar_names(
            context.locals@.map_values(|e: (Seq<char>, T)| e.0),
            target@,
        ),
{
    let ghost keys = context.locals@.map_values(|e: (Seq<char>, T)| e.0);
    let n = context.locals.len();
    let mut suggestions: Vec<(usize, &String)> = Vec::new();
    for i in 0..n
        invariant
            n == context.locals@.len() == keys.len(),
            keys == context.locals@.map_values(|e: (Seq<char>, T)| e.0),
            forall|t: int| 0 <= t < suggestions@.len() ==> 1 <= (#[trigger] suggestions@[t]).0 <= 3
                && suggestions@[t].0 == levenshtein_distance(target@, suggestions@[t].1@),
            names_at_distance(keys.take(i as int), target@, 1) == at_distance(suggestions@, 1),
            names_at_distance(keys.take(i as int), target@, 2) == at_distance(suggestions@, 2),
            names_at_distance(keys.take(i as int), target@, 3) == at_distance(suggestions@, 3),
    {
        let (local, _) = context.locals.entry_at(i);
        proof {
            assert(keys.take(i + 1).drop_last() =~= keys.take(i as int));
            assert(keys.take(i + 1).last() == local@);
        }
        let ghost before = suggestions@;
        if !local.as_str().is_empty() {
            let distance = levenshtein(target, local.as_str());
            if distance > 0 && distance <= 3 {
                suggestions.push((distance, local));
                proof {
                    assert(suggestions@.drop_last() =~= before);
                    assert(suggestions@.last() == (distance, local));
                }
            }
        }
    }
    assert(keys.take(n as int) =~= keys);
    assert(names_at_distance(keys.take(n as int), target@, 1) == at_distance(suggestions@, 1));
    assert(names_at_distance(keys.take(n as int), target@, 2) == at_distance(suggestions@, 2));
    assert(names_at_distance(keys.take(n as int), target@, 3) == at_distance(suggestions@, 3));
    let ghost sims = similar_names(keys, target@);
    assert(sims == at_distance(suggestions@, 1) + at_distance(suggestions@, 2) + at_distance(suggestions@, 3));
    let mut result: Vec<String> = Vec::new();
    let mut d: usize = 1;
    while d <= 3
        invariant
            1 <= d <= 4,
            sims == at_distance(suggestions@, 1) + at_distance(suggestions@, 2) + at_distance(suggestions@, 3),
            forall|t: int| 0 <= t < suggestions@.len() ==> 1 <= (#[trigger] suggestions@[t]).0 <= 3,
            result@.map_values(|s: String| s@) == distances_up_to(suggestions@, d as nat),
        decreases 4 - d,
    {
        let m = suggestions.len();
        let ghost start = result@.map_values(|s: String| s@);
        for j in 0..m
            invariant
                m == suggestions@.len(),
                1 <= d <= 3,
                result@.map_values(|s: String| s@) == start + at_distance(suggestions@.take(j as int), d as nat),
        {
            proof {
                let t = suggestions@.take(j + 1);
                assert(t.drop_last() =~= suggestions@.take(j as int));
                assert(t.last() == suggestions@[j as int]);
            }
            let ghost before = result@;
            if suggestions[j].0 == d {
                result.push(suggestions[j].1.clone());
                assert(result@.map_values(|s: String| s@) =~= before.map_values(|s: String| s@).push(
                    suggestions@[j as int].1@,
                ));
            }
        }
        assert(suggestions@.take(m as int) =~= suggestions@);
        d = d + 1;
    }
    proof {
        assert(distances_up_to(suggestions@, 4) == distances_up_to(suggestions@, 3) + at_distance(suggestions@, 3));
        assert(distances_up_to(suggestions@, 3) == distances_up_to(suggestions@, 2) + at_distance(suggestions@, 2));
        assert(distances_up_to(suggestions@, 2) == distances_up_to(suggestions@, 1) + at_distance(suggestions@, 1));
        assert(distances_up_to(suggestions@, 1) == Seq::<Seq<char>>::empty());
        assert(result@.map_values(|s: String| s@) =~= sims);
    }
    result
}

/// The names among `suggestions` at distance `d`, in order.
pub open spec fn at_distance(suggestions: Seq<(usize, &String)>, d: nat) -> Seq<Seq<char>>
    decreases suggestions.len(),
{
    if suggestions.len() == 0 {
        seq![]
    } else {
        let rest = at_distance(suggestions.drop_last(), d);
        if suggestions.last().0 == d {
            rest.push(suggestions.last().1@)
        } else {
            rest
        }
    }
}

/// The names among `suggestions` at distances below `d`, nearest first.
pub open spec fn distances_up_to(suggestions: Seq<(usize, &String)>, d: nat) -> Seq<Seq<char>>
    decreases d,
{
    if d <= 1 {
        seq![]
    } else {
        distances_up_to(suggestions, (d - 1) as nat) + at_distance(suggestions, (d - 1) as nat)
    }
}


/// Whether a character is an ASCII letter or digit.
pub open spec fn ascii_alphanumeric(c: char) -> bool {
    ('a' <= c && c <= 'z') || ('A' <= c && c <= 'Z') || ('0' <= c && c <= '9')
}

/// Whether a character has the Unicode `Alphabetic` property, as the
/// standard library's tables give it.
pub uninterp spec fn alphabetic(c: char) -> bool;

/// Whether a character has the Unicode `Alphabetic` property
/// (`char::is_alphabetic`): among ASCII characters exactly the letters have
/// it; beyond ASCII the contract names the answer and says no more.
#[verifier::external_body]
fn is_alphabetic(c: char) -> (r: bool)
    ensures
        r == alphabetic(c),
        (c as u32) < 128 ==> (r <==> (('a' <= c && c <= 'z') || ('A' <= c && c <= 'Z'))),
{
    c.is_alphabetic()
}

/// Whether a character is an ASCII letter or digit.
fn is_ascii_alphanumeric(c: char) -> (r: bool)
    ensures
        r == ascii_alphanumeric(c),
{
    ('a' <= c && c <= 'z') || ('A' <= c && c <= 'Z') || ('0' <= c && c <= '9')
}

/// Whether a character of a variable name is outside the usual set: one
/// beyond ASCII. (An alphabetic character that is no ASCII letter is beyond
/// ASCII too.)
pub open spec fn nonstandard_char(c: char) -> bool {
    (c as u32) > 0x7F
}

/// How a character that looks like an ASCII letter is shown, for the two
/// such characters that the note names.
pub open spec fn confusable_example(c: char) -> Option<Seq<char>> {
    if !ascii_alphanumeric(c) && c != '_' && alphabetic(c) {
        if c == '\u{0430}' {
            Some("'а' (Cyrillic 'a')"@)
        } else if c == '\u{03BF}' {
            Some("'ο' (Greek 'o')"@)
        } else {
            None
        }
    } else {
        None
    }
}

/// The examples for the characters of `s`, in order.
pub open spec fn confusable_examples(s: Seq<char>) -> Seq<Seq<char>>
    decreases s.len(),
{
    if s.len() == 0 {
        seq![]
    } else {
        let rest = confusable_examples(s.drop_last());
        match confusable_example(s.last()) {
            Some(e) => rest.push(e),
            None => rest,
        }
    }
}

/// The characters of a variable name after its first (the `$`).
pub open spec fn name_body(s: Seq<char>) -> Seq<char> {
    if s.len() == 0 {
        s
    } else {
        s.drop_first()
    }
}

/// The note on a variable name with unusual characters: none when every
/// character after the first is ASCII; else a sentence naming the variable, the confusable
/// characters found (if any) and a request to check them.
pub open spec fn confusable_note(s: Seq<char>) -> Option<Seq<char>> {
    if exists|i: int| 0 <= i < name_body(s).len() && nonstandard_char(#[trigger] name_body(s)[i]) {
        let examples = confusable_examples(name_body(s));
        Some(
            "Variable name `"@ + s + "` contains non-standard ASCII alphanumeric characters."@ + if examples.len()
                > 0 {
                " For example, it might contain "@ + join(examples, " or "@) + "."@
            } else {
                Seq::<char>::empty()
            } + " Please verify all characters are intended."@,
        )
    } else {
        None
    }
}

/// A note on a variable name that holds characters beyond ASCII after its
/// `$`, naming the Cyrillic `а` and Greek `ο` if they occur.
pub fn generate_confusable_character_note(variable_name: &str) -> (r: Option<String>)
    ensures
        r is Some <==> confusable_note(variable_name@) is Some,
        r matches Some(note) ==> confusable_note(variable_name@) == Some(note@),
{
    let ghost s = variable_name@;
    let ghost body = name_body(s);
    let n = variable_name.unicode_len();
    let mut found = false;
    let mut examples: Vec<String> = Vec::new();
    let mut i: usize = 1;
    while i < n
        invariant
            s == variable_name@,
            n == s.len(),
            body == name_body(s),
            1 <= i,
            i <= n || i == 1,
            found <==> exists|j: int| 0 <= j < i - 1 && nonstandard_char(#[trigger] body[j]),
            examples@.map_values(|e: String| e@) == confusable_examples(body.take(i - 1)),
        decreases n - i,
    {
        let c = variable_name.get_char(i);
        proof {
            assert(body[i - 1] == c);
            assert(body.take(i as int).drop_last() =~= body.take(i - 1));
            assert(body.take(i as int).last() == c);
        }
        if !is_ascii_alphanumeric(c) && c != '_' {
            if is_alphabetic(c) {
                found = true;
                if c == '\u{0430}' {
                    examples.push(String::from_str("'а' (Cyrillic 'a')"));
                } else if c == '\u{03BF}' {
                    examples.push(String::from_str("'ο' (Greek 'o')"));
                }
            } else if (c as u32) > 0x7F {
                found = true;
            }
        }
        assert(examples@.map_values(|e: String| e@) =~= confusable_examples(body.take(i as int)));
        i = i + 1;
    }
    assert(body.take(i - 1) =~= body);
    let ghost examples_view = examples@.map_values(|e: String| e@);
    assert(examples_view == confusable_examples(body));
    if found {
        let mut note = String::from_str("Variable name `");
        note.append(variable_name);
        note.append("` contains non-standard ASCII alphanumeric characters.");
        if examples.len() > 0 {
            note.append(" For example, it might contain ");
            let joined = join_strings(&examples, " or ");
            note.append(joined.as_str());
            note.append(".");
        }
        note.append(" Please verify all characters are intended.");
        assert(note@ =~= confusable_note(s)->0);
        Some(note)
    } else {
        None
    }
}


/// Whether a name is one of the global variables whose type the analysis
/// knows without a definition: the superglobals, `$argv`, `$argc`,
/// `$http_response_header` and `$GLOBALS`.
pub open spec fn global_variable_name(name: Seq<char>) -> bool {
    ||| name == "$argv"@
    ||| name == "$argc"@
    ||| name == "$http_response_header"@
    ||| name == "$GLOBALS"@
    ||| name == "$_COOKIE"@
    ||| name == "$_GET"@
    ||| name == "$_POST"@
    ||| name == "$_REQUEST"@
    ||| name == "$_SERVER"@
    ||| name == "$_ENV"@
    ||| name == "$_FILES"@
    ||| name == "$_SESSION"@
}

/// Whether a variable name is one of the known global variables.
pub fn is_global_variable_name(variable_name: &str) -> (r: bool)
    ensures
        r == global_variable_name(variable_name@),
{
    same_text(variable_name, "$argv")
        || same_text(variable_name, "$argc")
        || same_text(variable_name, "$http_response_header")
        || same_text(variable_name, "$GLOBALS")
        || same_text(variable_name, "$_COOKIE")
        || same_text(variable_name, "$_GET")
        || same_text(variable_name, "$_POST")
        || same_text(variable_name, "$_REQUEST")
        || same_text(variable_name, "$_SERVER")
        || same_text(variable_name, "$_ENV")
        || same_text(variable_name, "$_FILES")
        || same_text(variable_name, "$_SESSION")
}


/// PHP's superglobal arrays: `$GLOBALS` and the eight named `$_` followed
/// by an upper-case word.
pub open spec fn php_superglobal_name(n: Seq<char>) -> bool {
    ||| n == "$GLOBALS"@
    ||| n == "$_"@ + "GET"@
    ||| n == "$_"@ + "POST"@
    ||| n == "$_"@ + "COOKIE"@
    ||| n == "$_"@ + "FILES"@
    ||| n == "$_"@ + "ENV"@
    ||| n == "$_"@ + "REQUEST"@
    ||| n == "$_"@ + "SERVER"@
    ||| n == "$_"@ + "SESSION"@
}

/// The variables a script gets from how it was run: the command-line
/// arguments and their count, and the headers of the last HTTP response.
pub open spec fn script_global_name(n: Seq<char>) -> bool {
    ||| n == "$argv"@
    ||| n == "$argc"@
    ||| n == "$http_response_header"@
}

/// The known global variables are exactly PHP's superglobals and the
/// variables a script gets from how it was run.
pub proof fn lemma_global_variable_names(n: Seq<char>)
    ensures
        global_variable_name(n) <==> (php_superglobal_name(n) || script_global_name(n)),
{
    reveal_strlit("$GLOBALS");
    reveal_strlit("$_");
    reveal_strlit("$_COOKIE");
    reveal_strlit("$_ENV");
    reveal_strlit("$_FILES");
    reveal_strlit("$_GET");
    reveal_strlit("$_POST");
    reveal_strlit("$_REQUEST");
    reveal_strlit("$_SERVER");
    reveal_strlit("$_SESSION");
    reveal_strlit("$argc");
    reveal_strlit("$argv");
    reveal_strlit("$http_response_header");
    reveal_strlit("COOKIE");
    reveal_strlit("ENV");
    reveal_strlit("FILES");
    reveal_strlit("GET");
    reveal_strlit("POST");
    reveal_strlit("REQUEST");
    reveal_strlit("SERVER");
    reveal_strlit("SESSION");
    assert("$_"@ + "GET"@ =~= "$_GET"@);
    assert("$_"@ + "POST"@ =~= "$_POST"@);
    assert("$_"@ + "COOKIE"@ =~= "$_COOKIE"@);
    assert("$_"@ + "FILES"@ =~= "$_FILES"@);
    assert("$_"@ + "ENV"@ =~= "$_ENV"@);
    assert("$_"@ + "REQUEST"@ =~= "$_REQUEST"@);
    assert("$_"@ + "SERVER"@ =~= "$_SERVER"@);
    assert("$_"@ + "SESSION"@ =~= "$_SESSION"@);
}

} // verus!
