//! Names and source text: equality and the order in which names are listed.

use vstd::prelude::*;

verus! {

/// `str`'s `==` from std: true exactly when both slices hold the same
/// characters.
pub assume_specification[ <str as PartialEq>::eq ](a: &str, b: &str) -> (res: bool)
    ensures
        res == (a@ == b@),
;

/// Whether `text` is the given word.
pub fn text_is(text: &String, word: &str) -> (r: bool)
    ensures
        r == (text@ == word@),
{
    *text.as_str() == *word
}

/// The order of names: character by character by code point, a proper prefix
/// before the longer text.
pub open spec fn text_lt(a: Seq<char>, b: Seq<char>) -> bool
    decreases a.len(),
{
    if b.len() == 0 {
        false
    } else if a.len() == 0 {
        true
    } else if a[0] != b[0] {
        (a[0] as int) < (b[0] as int)
    } else {
        text_lt(a.drop_first(), b.drop_first())
    }
}

/// std's `<` on `str`, which orders strings by their bytes and so, for UTF-8,
/// by the code points of their characters.
#[verifier::external_body]
pub(crate) fn str_lt(a: &str, b: &str) -> (r: bool)
    ensures
        r == text_lt(a@, b@),
{
    a < b
}

/// No text comes before itself.
pub proof fn lemma_text_lt_irreflexive(a: Seq<char>)
    ensures
        !text_lt(a, a),
    decreases a.len(),
{
    if a.len() > 0 {
        lemma_text_lt_irreflexive(a.drop_first());
    }
}

/// Of two different texts one comes before the other.
pub proof fn lemma_text_lt_total(a: Seq<char>, b: Seq<char>)
    ensures
        a == b || text_lt(a, b) || text_lt(b, a),
    decreases a.len(),
{
    if a.len() == 0 || b.len() == 0 {
        if a.len() == 0 && b.len() == 0 {
            assert(a =~= b);
        }
    } else if a[0] == b[0] {
        lemma_text_lt_total(a.drop_first(), b.drop_first());
        if a.drop_first() == b.drop_first() {
            assert(a =~= seq![a[0]] + a.drop_first());
            assert(b =~= seq![b[0]] + b.drop_first());
        }
    } else {
        assert(a[0] as int != b[0] as int);
    }
}

/// The order is transitive.
pub proof fn lemma_text_lt_transitive(a: Seq<char>, b: Seq<char>, c: Seq<char>)
    requires
        text_lt(a, b),
        text_lt(b, c),
    ensures
        text_lt(a, c),
    decreases a.len(),
{
    if a.len() > 0 && a[0] == b[0] && b[0] == c[0] {
        lemma_text_lt_transitive(a.drop_first(), b.drop_first(), c.drop_first());
    }
}

/// The texts of a list of strings.
pub open spec fn texts(names: Seq<String>) -> Seq<Seq<char>> {
    names.map_values(|name: String| name@)
}

/// Strictly ascending: sorted, and nothing twice.
pub open spec fn sorted(names: Seq<Seq<char>>) -> bool {
    forall|i: int, j: int| 0 <= i < j < names.len() ==> text_lt(names[i], names[j])
}

/// The first place at or after `from` whose name does not come before `name`.
pub open spec fn insert_position(names: Seq<Seq<char>>, name: Seq<char>, from: nat) -> nat
    decreases names.len() - from,
{
    if from >= names.len() {
        names.len()
    } else if text_lt(names[from as int], name) {
        insert_position(names, name, from + 1)
    } else {
        from
    }
}

/// `names` with `name` put in at its place, unless it stands there already.
pub open spec fn insert_sorted(names: Seq<Seq<char>>, name: Seq<char>) -> Seq<Seq<char>> {
    let at = insert_position(names, name, 0) as int;
    if at < names.len() && names[at] == name {
        names
    } else {
        names.insert(at, name)
    }
}

/// `names` with each of `more` put in, one after the other.
pub open spec fn insert_all(names: Seq<Seq<char>>, more: Seq<Seq<char>>) -> Seq<Seq<char>>
    decreases more.len(),
{
    if more.len() == 0 {
        names
    } else {
        insert_all(insert_sorted(names, more[0]), more.drop_first())
    }
}

/// Where a name goes: everything before the place comes before the name, and
/// what stands at the place does not.
pub proof fn lemma_insert_position(names: Seq<Seq<char>>, name: Seq<char>, from: nat)
    requires
        from <= names.len(),
    ensures
        from <= insert_position(names, name, from) <= names.len(),
        forall|k: int|
            from <= k < insert_position(names, name, from) ==> text_lt(#[trigger] names[k], name),
        insert_position(names, name, from) < names.len() ==> !text_lt(
            names[insert_position(names, name, from) as int],
            name,
        ),
    decreases names.len() - from,
{
    if from < names.len() && text_lt(names[from as int], name) {
        lemma_insert_position(names, name, from + 1);
    }
}

/// Putting a name into a sorted list keeps it sorted, adds the name and
/// neither drops nor adds any other.
pub proof fn lemma_insert_sorted(names: Seq<Seq<char>>, name: Seq<char>)
    requires
        sorted(names),
    ensures
        sorted(insert_sorted(names, name)),
        insert_sorted(names, name).contains(name),
        forall|other: Seq<char>|
            insert_sorted(names, name).contains(other) <==> (other == name || names.contains(
                other,
            )),
        names.contains(name) ==> insert_sorted(names, name) == names,
{
    let at = insert_position(names, name, 0) as int;
    let result = insert_sorted(names, name);
    lemma_insert_position(names, name, 0);
    if at < names.len() && names[at] == name {
        assert(names.contains(name));
    } else {
        assert(result == names.insert(at, name));
        assert(result[at] == name);
        assert forall|i: int, j: int| 0 <= i < j < result.len() implies text_lt(
            result[i],
            result[j],
        ) by {
            if j < at {
                assert(result[i] == names[i] && result[j] == names[j]);
            } else if j == at {
                assert(result[i] == names[i]);
            } else if i == at {
                assert(result[j] == names[j - 1]);
                lemma_text_lt_total(name, names[at]);
                if j - 1 > at {
                    lemma_text_lt_transitive(name, names[at], names[j - 1]);
                }
            } else if i < at {
                assert(result[i] == names[i] && result[j] == names[j - 1]);
            } else {
                assert(result[i] == names[i - 1] && result[j] == names[j - 1]);
            }
        }
        assert forall|other: Seq<char>| result.contains(other) <==> (other == name
            || names.contains(other)) by {
            if result.contains(other) {
                let k = choose|k: int| 0 <= k < result.len() && result[k] == other;
                if k < at {
                    assert(names[k] == other);
                } else if k > at {
                    assert(names[k - 1] == other);
                }
            }
            if names.contains(other) {
                let k = choose|k: int| 0 <= k < names.len() && names[k] == other;
                if k < at {
                    assert(result[k] == other);
                } else {
                    assert(result[k + 1] == other);
                }
            }
        }
        if names.contains(name) {
            let k = choose|k: int| 0 <= k < names.len() && names[k] == name;
            lemma_text_lt_irreflexive(name);
            if k < at {
                assert(text_lt(names[k], name));
            } else if k > at {
                lemma_text_lt_total(name, names[at]);
                assert(text_lt(names[at], names[k]));
                lemma_text_lt_transitive(name, names[at], names[k]);
            }
        }
    }
}

/// Putting several names into a sorted list keeps it sorted and yields
/// exactly the names of both.
pub proof fn lemma_insert_all(names: Seq<Seq<char>>, more: Seq<Seq<char>>)
    requires
        sorted(names),
    ensures
        sorted(insert_all(names, more)),
        forall|other: Seq<char>|
            insert_all(names, more).contains(other) <==> (names.contains(other) || more.contains(
                other,
            )),
    decreases more.len(),
{
    if more.len() > 0 {
        lemma_insert_sorted(names, more[0]);
        lemma_insert_all(insert_sorted(names, more[0]), more.drop_first());
        assert forall|other: Seq<char>| insert_all(names, more).contains(other) <==> (
        names.contains(other) || more.contains(other)) by {
            if more.contains(other) {
                let k = choose|k: int| 0 <= k < more.len() && more[k] == other;
                if k > 0 {
                    assert(more.drop_first()[k - 1] == other);
                }
            }
            if more.drop_first().contains(other) {
                let k = choose|k: int|
                    0 <= k < more.drop_first().len() && more.drop_first()[k] == other;
                assert(more[k + 1] == other);
            }
        }
    }
}

/// Puts `name` into a sorted list of names at its place, unless it is there.
pub fn insert_name(names: &mut Vec<String>, name: String)
    ensures
        texts(final(names)@) == insert_sorted(texts(old(names)@), name@),
{
    let n: usize = names.len();
    let mut i: usize = 0;
    while i < n && str_lt(names[i].as_str(), name.as_str())
        invariant
            n == names@.len(),
            i <= n,
            insert_position(texts(names@), name@, 0) == insert_position(
                texts(names@),
                name@,
                i as nat,
            ),
        decreases n - i,
    {
        i += 1;
    }
    if i < n && *names[i].as_str() == *name.as_str() {
        return ;
    }
    names.insert(i, name);
    assert(texts(names@) =~= texts(old(names)@).insert(i as int, name@));
}

} // verus!
