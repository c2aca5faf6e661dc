//! Parsing of old→new tag pairs given on the command line.

use vstd::prelude::*;
use crate::resolve::{TagMapping, has_key, keys_unique};
use crate::text::{trim, find_char, trim_text, find_char_index, decimal, decimal_text};

verus! {

/// Why a list of tag pairs was rejected, as plain text.
pub enum PairFault {
    OddCount(nat),
    EmptyRegexPair,
    MissingSeparator(Seq<char>),
    EmptyTag(Seq<char>),
}

/// Why a list of tag pairs was rejected.
#[derive(Clone, Debug)]
pub enum PairError {
    /// Regex mode takes pattern/replacement pairs; the count was odd.
    OddCount(usize),
    /// In regex mode a pattern or its replacement was blank.
    EmptyRegexPair,
    /// A pair without `=`.
    MissingSeparator(String),
    /// A pair with a blank old or new tag.
    EmptyTag(String),
}

impl PairError {
    pub open spec fn view(&self) -> PairFault {
        match self {
            PairError::OddCount(n) => PairFault::OddCount(*n as nat),
            PairError::EmptyRegexPair => PairFault::EmptyRegexPair,
            PairError::MissingSeparator(p) => PairFault::MissingSeparator(p@),
            PairError::EmptyTag(p) => PairFault::EmptyTag(p@),
        }
    }

    /// A sentence describing the fault, naming the offending argument.
    pub fn message(&self) -> (r: String)
        ensures
            self matches PairError::OddCount(n) ==> r@ == "Invalid number of arguments for regex mode. Expected pairs of (old_pattern, new_tag), got "@
                + decimal(*n as nat) + " arguments"@,
            self is EmptyRegexPair ==> r@ == "Invalid tag pair: old pattern and new tag must be non-empty"@,
            self matches PairError::MissingSeparator(p) ==> r@ == "Invalid tag pair format: '"@ + p@
                + "'. Use format 'oldtag=newtag'"@,
            self matches PairError::EmptyTag(p) ==> r@ == "Invalid tag pair format: '"@ + p@
                + "'. Old and new tags must be non-empty"@,
    {
        match self {
            PairError::OddCount(n) => {
                let mut s = String::from_str(
                    "Invalid number of arguments for regex mode. Expected pairs of (old_pattern, new_tag), got ",
                );
                let digits = decimal_text(*n as u64);
                s.append(digits.as_str());
                s.append(" arguments");
                s
            },
            PairError::EmptyRegexPair => String::from_str(
                "Invalid tag pair: old pattern and new tag must be non-empty",
            ),
            PairError::MissingSeparator(p) => {
                let mut s = String::from_str("Invalid tag pair format: '");
                s.append(p.as_str());
                s.append("'. Use format 'oldtag=newtag'");
                s
            },
            PairError::EmptyTag(p) => {
                let mut s = String::from_str("Invalid tag pair format: '");
                s.append(p.as_str());
                s.append("'. Old and new tags must be non-empty");
                s
            },
        }
    }
}

/// The text of each string.
pub open spec fn texts(v: Seq<String>) -> Seq<Seq<char>> {
    v.map_values(|p: String| p@)
}

/// Sets `key` to `value`: in place where the key is present, else appended.
pub open spec fn map_insert(m: TagMapping, key: Seq<char>, value: Seq<char>) -> TagMapping {
    if has_key(m, key) {
        m.update(choose|i: int| 0 <= i < m.len() && m[i].0 == key, (key, value))
    } else {
        m.push((key, value))
    }
}

/// One `old=new` pair: split at the first `=`, both sides trimmed and non-blank.
pub open spec fn literal_pair(p: Seq<char>) -> Result<(Seq<char>, Seq<char>), PairFault> {
    match find_char(p, '=') {
        None => Err(PairFault::MissingSeparator(p)),
        Some(i) => {
            let old = trim(p.subrange(0, i));
            let new = trim(p.subrange(i + 1, p.len() as int));
            if old.len() == 0 || new.len() == 0 {
                Err(PairFault::EmptyTag(p))
            } else {
                Ok((old, new))
            }
        },
    }
}

/// `old=new` pairs in order; the first faulty pair decides the error.
pub open spec fn parse_literal_pairs(pairs: Seq<Seq<char>>) -> Result<TagMapping, PairFault>
    decreases pairs.len(),
{
    if pairs.len() == 0 {
        Ok(seq![])
    } else {
        match parse_literal_pairs(pairs.drop_last()) {
            Err(e) => Err(e),
            Ok(m) => match literal_pair(pairs.last()) {
                Err(e) => Err(e),
                Ok(pair) => Ok(map_insert(m, pair.0, pair.1)),
            },
        }
    }
}

/// The first `k` pattern/replacement pairs, trimmed and non-blank.
pub open spec fn regex_chunks(pairs: Seq<Seq<char>>, k: nat) -> Result<TagMapping, PairFault>
    decreases k,
{
    if k == 0 {
        Ok(seq![])
    } else {
        match regex_chunks(pairs, (k - 1) as nat) {
            Err(e) => Err(e),
            Ok(m) => {
                let old = trim(pairs[2 * k - 2]);
                let new = trim(pairs[2 * k - 1]);
                if old.len() == 0 || new.len() == 0 {
                    Err(PairFault::EmptyRegexPair)
                } else {
                    Ok(map_insert(m, old, new))
                }
            },
        }
    }
}

/// Positional pattern/replacement arguments.
pub open spec fn parse_regex_pairs(pairs: Seq<Seq<char>>) -> Result<TagMapping, PairFault> {
    if pairs.len() % 2 != 0 {
        Err(PairFault::OddCount(pairs.len()))
    } else {
        regex_chunks(pairs, pairs.len() / 2)
    }
}

/// The mapping that tag-pair arguments describe.
pub open spec fn parse_pairs_spec(pairs: Seq<Seq<char>>, regex: bool) -> Result<TagMapping, PairFault> {
    if regex {
        parse_regex_pairs(pairs)
    } else {
        parse_literal_pairs(pairs)
    }
}

proof fn lemma_map_insert_unique(m: TagMapping, key: Seq<char>, value: Seq<char>)
    requires
        keys_unique(m),
    ensures
        keys_unique(map_insert(m, key, value)),
        has_key(map_insert(m, key, value), key),
{
    let r = map_insert(m, key, value);
    if has_key(m, key) {
        let i = choose|i: int| 0 <= i < m.len() && m[i].0 == key;
        assert(r[i].0 == key);
        assert forall|a: int, b: int| 0 <= a < b < r.len() implies (#[trigger] r[a]).0 != (#[trigger] r[b]).0 by {
            if a == i {
                assert(m[b].0 != m[i].0);
            } else if b == i {
                assert(m[a].0 != m[i].0);
            } else {
                assert(m[a].0 != m[b].0);
            }
        }
    } else {
        assert(r[m.len() as int].0 == key);
        assert forall|a: int, b: int| 0 <= a < b < r.len() implies (#[trigger] r[a]).0 != (#[trigger] r[b]).0 by {
            if b == m.len() {
                assert(m[a].0 != key);
            } else {
                assert(m[a].0 != m[b].0);
            }
        }
    }
}

/// Inserts into a mapping with unique keys.
fn insert_pair(m: &mut Vec<(String, String)>, key: String, value: String)
    requires
        keys_unique(old(m).deep_view()),
    ensures
        final(m).deep_view() == map_insert(old(m).deep_view(), key@, value@),
        keys_unique(final(m).deep_view()),
{
    proof {
        lemma_map_insert_unique(m.deep_view(), key@, value@);
    }
    let ghost before = m.deep_view();
    let mut i: usize = 0;
    let mut found: Option<usize> = None;
    while i < m.len() && found.is_none()
        invariant
            i <= m@.len(),
            m.deep_view() == before,
            keys_unique(before),
            found is None ==> forall|k: int| 0 <= k < i ==> (#[trigger] before[k]).0 != key@,
            found matches Some(f) ==> f < before.len() && before[f as int].0 == key@,
        decreases m@.len() - i,
    {
        if m[i].0 == key {
            found = Some(i);
        }
        i = i + 1;
    }
    match found {
        Some(f) => {
            proof {
                let c = choose|c: int| 0 <= c < before.len() && before[c].0 == key@;
                if c != f {
                    assert(before[c].0 != before[f as int].0);
                }
            }
            m.set(f, (key, value));
        },
        None => {
            m.push((key, value));
        },
    }
    proof {
        assert(m.deep_view() =~= map_insert(before, key@, value@));
    }
}

proof fn lemma_literal_err_extends(pairs: Seq<Seq<char>>, i: int)
    requires
        0 < i <= pairs.len(),
        parse_literal_pairs(pairs.take(i)) is Err,
    ensures
        parse_literal_pairs(pairs) == parse_literal_pairs(pairs.take(i)),
    decreases pairs.len() - i,
{
    if i < pairs.len() {
        let next = pairs.take(i + 1);
        assert(next.drop_last() =~= pairs.take(i));
        lemma_literal_err_extends(pairs, i + 1);
    } else {
        assert(pairs.take(i) =~= pairs);
    }
}

proof fn lemma_chunks_err_extends(pairs: Seq<Seq<char>>, k: nat, total: nat)
    requires
        0 < k <= total,
        regex_chunks(pairs, k) is Err,
    ensures
        regex_chunks(pairs, total) == regex_chunks(pairs, k),
    decreases total - k,
{
    if k < total {
        lemma_chunks_err_extends(pairs, k, (total - 1) as nat);
    }
}

/// A trimmed copy of part of `s`.
fn trimmed_part(s: &str, from: usize, to: usize) -> (r: String)
    requires
        from <= to <= s@.len(),
    ensures
        r@ == trim(s@.subrange(from as int, to as int)),
{
    let part = s.substring_char(from, to);
    String::from_str(trim_text(part))
}

/// Splits one `old=new` argument.
fn split_pair(p: &str) -> (r: Result<(String, String), PairError>)
    ensures
        r matches Ok(pair) ==> literal_pair(p@) == Ok::<(Seq<char>, Seq<char>), PairFault>((pair.0@, pair.1@)),
        r matches Err(e) ==> literal_pair(p@) == Err::<(Seq<char>, Seq<char>), PairFault>(e@),
{
    match find_char_index(p, '=') {
        None => Err(PairError::MissingSeparator(String::from_str(p))),
        Some(at) => {
            let n = p.unicode_len();
            let old = trimmed_part(p, 0, at);
            let new = trimmed_part(p, at + 1, n);
            if old.unicode_len() == 0 || new.unicode_len() == 0 {
                Err(PairError::EmptyTag(String::from_str(p)))
            } else {
                Ok((old, new))
            }
        },
    }
}

/// Parses tag-pair arguments. Without `regex` each argument is `old=new`;
/// with `regex` the arguments alternate pattern and replacement.
pub fn parse_tag_pairs(pairs: &[String], regex: bool) -> (r: Result<Vec<(String, String)>, PairError>)
    ensures
        r matches Ok(m) ==> parse_pairs_spec(texts(pairs@), regex) == Ok::<TagMapping, PairFault>(m.deep_view()),
        r matches Err(e) ==> parse_pairs_spec(texts(pairs@), regex) == Err::<TagMapping, PairFault>(e@),
        r matches Ok(m) ==> keys_unique(m.deep_view()),
{
    let ghost all = texts(pairs@);
    let mut out: Vec<(String, String)> = Vec::new();
    if regex {
        if pairs.len() % 2 != 0 {
            return Err(PairError::OddCount(pairs.len()));
        }
        let count = pairs.len() / 2;
        let mut k: usize = 0;
        let mut j: usize = 0;
        proof {
            assert(out.deep_view() =~= seq![]);
        }
        while k < count
            invariant
                all == texts(pairs@),
                regex,
                count * 2 == pairs@.len(),
                k <= count,
                j == 2 * k,
                regex_chunks(all, k as nat) == Ok::<TagMapping, PairFault>(out.deep_view()),
                keys_unique(out.deep_view()),
            decreases count - k,
        {
            let old = String::from_str(trim_text(pairs[j].as_str()));
            let new = String::from_str(trim_text(pairs[j + 1].as_str()));
            proof {
                assert(all[j as int] == pairs@[j as int]@);
                assert(all[j as int + 1] == pairs@[j as int + 1]@);
            }
            if old.unicode_len() == 0 || new.unicode_len() == 0 {
                proof {
                    assert(regex_chunks(all, (k + 1) as nat) == Err::<TagMapping, PairFault>(PairFault::EmptyRegexPair));
                    lemma_chunks_err_extends(all, (k + 1) as nat, count as nat);
                    assert(all.len() / 2 == count);
                    assert(parse_pairs_spec(all, regex) == Err::<TagMapping, PairFault>(PairFault::EmptyRegexPair));
                }
                return Err(PairError::EmptyRegexPair);
            }
            insert_pair(&mut out, old, new);
            k = k + 1;
            j = j + 2;
        }
        proof {
            assert(all.len() / 2 == count);
        }
        Ok(out)
    } else {
        let mut i: usize = 0;
        proof {
            assert(all.take(0) =~= seq![]);
            assert(out.deep_view() =~= seq![]);
        }
        while i < pairs.len()
            invariant
                all == texts(pairs@),
                !regex,
                i <= pairs@.len(),
                parse_literal_pairs(all.take(i as int)) == Ok::<TagMapping, PairFault>(out.deep_view()),
                keys_unique(out.deep_view()),
            decreases pairs@.len() - i,
        {
            let p = pairs[i].as_str();
            proof {
                let pre = all.take(i as int + 1);
                assert(pre.drop_last() =~= all.take(i as int));
                assert(pre.last() == p@);
            }
            match split_pair(p) {
                Err(e) => {
                    proof {
                        assert(parse_literal_pairs(all.take(i as int + 1)) == Err::<TagMapping, PairFault>(e@));
                        lemma_literal_err_extends(all, i as int + 1);
                        assert(parse_literal_pairs(all) == Err::<TagMapping, PairFault>(e@));
                        assert(!regex);
                        assert(parse_pairs_spec(all, regex) == parse_literal_pairs(all));
                    }
                    return Err(e);
                },
                Ok(pair) => {
                    let (old, new) = pair;
                    insert_pair(&mut out, old, new);
                },
            }
            i = i + 1;
        }
        proof {
            assert(all.take(pairs@.len() as int) =~= all);
        }
        Ok(out)
    }
}

} // verus!
