//! What the library reads of the containers that Docker lists, and how a
//! registered container is found among them.
use vstd::prelude::*;
use vstd::string::*;
use crate::text::str_eq;

verus! {

/// A container as Docker lists it: its id, the names it answers to
/// (Docker writes them with a leading `/`) and its status text.
#[derive(Debug)]
pub struct DockerContainer {
    pub id: Option<String>,
    pub names: Option<Vec<String>>,
    pub status: Option<String>,
}

/// A name Docker lists stands for `key` as it is, or with one leading `/`
/// taken off.
pub open spec fn name_matches(listed: Seq<char>, key: Seq<char>) -> bool {
    ||| listed == key
    ||| (listed.len() > 0 && listed[0] == '/' && listed.skip(1) == key)
}

/// The container answers to `key` under one of its listed names.
pub open spec fn answers_to(c: DockerContainer, key: Seq<char>) -> bool {
    match c.names {
        Some(names) => exists|j: int| 0 <= j < names@.len() && #[trigger] name_matches(names@[j]@, key),
        None => false,
    }
}

/// The container that `key` leads to: of those that answer to it, the
/// one listed last.
pub open spec fn last_answering(listed: Seq<DockerContainer>, key: Seq<char>) -> Option<DockerContainer>
    decreases listed.len(),
{
    if listed.len() == 0 {
        None
    } else if answers_to(listed.last(), key) {
        Some(listed.last())
    } else {
        last_answering(listed.drop_last(), key)
    }
}

/// Docker lists names with a leading `/`: such a name stands for the name
/// without it.
pub proof fn lemma_slash_prefixed_name_matches(key: Seq<char>)
    ensures
        name_matches(seq!['/'] + key, key),
{
    assert((seq!['/'] + key).skip(1) =~= key);
}

/// A listed name stands for `key` exactly when it is `key` itself or `key`
/// with one `/` put before it; a longer name that merely begins with one
/// of these does not.
pub proof fn lemma_name_matches_exactly(listed: Seq<char>, key: Seq<char>)
    ensures
        name_matches(listed, key) <==> (listed == key || listed == seq!['/'] + key),
{
    if listed.len() > 0 && listed[0] == '/' && listed.skip(1) == key {
        assert(listed =~= seq!['/'] + key);
    }
    if listed == seq!['/'] + key {
        assert(listed.skip(1) =~= key);
    }
}

/// A container answers to `key` exactly when one of its listed names is
/// `key` or `/` followed by `key`.
pub proof fn lemma_answers_to_exactly(c: DockerContainer, key: Seq<char>)
    ensures
        answers_to(c, key) <==> (c.names is Some && exists|j: int| 0 <= j < c.names->0@.len()
            && (#[trigger] c.names->0@[j]@ == key || c.names->0@[j]@ == seq!['/'] + key)),
{
    if let Some(names) = c.names {
        assert forall|j: int| 0 <= j < names@.len() implies
            name_matches(names@[j]@, key) == (#[trigger] names@[j]@ == key || names@[j]@ == seq!['/'] + key) by {
            lemma_name_matches_exactly(names@[j]@, key);
        }
    }
}

/// A name leads to a container exactly when some listed container answers
/// to it, and the container it leads to answers to it, with none listed
/// after it answering too.
pub proof fn lemma_last_answering(listed: Seq<DockerContainer>, key: Seq<char>)
    ensures
        last_answering(listed, key) is None <==> (forall|i: int| 0 <= i < listed.len() ==> !answers_to(#[trigger] listed[i], key)),
        last_answering(listed, key) is Some ==> exists|i: int| 0 <= i < listed.len()
            && listed[i] == last_answering(listed, key)->0
            && #[trigger] answers_to(listed[i], key)
            && (forall|j: int| i < j < listed.len() ==> !answers_to(#[trigger] listed[j], key)),
    decreases listed.len(),
{
    if listed.len() > 0 {
        let front = listed.drop_last();
        let last = listed.len() - 1;
        lemma_last_answering(front, key);
        assert(listed.last() == listed[last]);
        assert forall|i: int| 0 <= i < last implies listed[i] == front[i] by {}
        if answers_to(listed[last], key) {
            assert(listed[last] == last_answering(listed, key)->0);
        } else if last_answering(front, key) is Some {
            let i = choose|i: int| 0 <= i < front.len()
                && front[i] == last_answering(front, key)->0
                && #[trigger] answers_to(front[i], key)
                && (forall|j: int| i < j < front.len() ==> !answers_to(#[trigger] front[j], key));
            assert(listed[i] == front[i]);
            assert forall|j: int| i < j < listed.len() implies !answers_to(#[trigger] listed[j], key) by {
                if j < last {
                    assert(listed[j] == front[j]);
                }
            }
        } else {
            assert forall|i: int| 0 <= i < listed.len() implies !answers_to(#[trigger] listed[i], key) by {
                if i < last {
                    assert(listed[i] == front[i]);
                }
            }
        }
    }
}

/// Whether a listed name stands for `key`.
pub fn listed_name_matches(listed: &str, key: &str) -> (res: bool)
    ensures
        res == name_matches(listed@, key@),
{
    if str_eq(listed, key) {
        return true;
    }
    let n = listed.unicode_len();
    if n > 0 && listed.get_char(0) == '/' {
        let rest = listed.substring_char(1, n);
        assert(rest@ =~= listed@.skip(1));
        str_eq(rest, key)
    } else {
        false
    }
}

/// Whether the container answers to `key`.
pub fn container_answers_to(c: &DockerContainer, key: &str) -> (res: bool)
    ensures
        res == answers_to(*c, key@),
{
    match &c.names {
        None => false,
        Some(names) => {
            let n = names.len();
            let mut j: usize = 0;
            while j < n
                invariant
                    n == names@.len(),
                    c.names == Some(*names),
                    j <= n,
                    forall|t: int| 0 <= t < j ==> !name_matches(names@[t]@, key@),
                decreases n - j,
            {
                if listed_name_matches(names[j].as_str(), key) {
                    assert(c.names->Some_0 == *names);
                    assert(exists|t: int| 0 <= t < names@.len() && #[trigger] name_matches(names@[t]@, key@));
                    assert(answers_to(*c, key@));
                    return true;
                }
                j += 1;
            }
            false
        },
    }
}

/// The container that `key` leads to among those Docker listed.
pub fn find_container<'a>(listed: &'a Vec<DockerContainer>, key: &str) -> (res: Option<&'a DockerContainer>)
    ensures
        match res {
            Some(c) => last_answering(listed@, key@) == Some(*c),
            None => last_answering(listed@, key@) is None,
        },
{
    let mut i: usize = listed.len();
    assert(listed@.take(i as int) =~= listed@);
    while i > 0
        invariant
            i <= listed@.len(),
            last_answering(listed@, key@) == last_answering(listed@.take(i as int), key@),
        decreases i,
    {
        proof {
            assert(listed@.take(i as int).drop_last() =~= listed@.take(i - 1));
            assert(listed@.take(i as int).last() == listed@[i - 1]);
        }
        if container_answers_to(&listed[i - 1], key) {
            return Some(&listed[i - 1]);
        }
        i -= 1;
    }
    None
}

} // verus!
