//! Transaction tags and their text encoding in query results.
//!
//! The tags of a transaction come back from the database as one text:
//! `tag+severity` pairs joined by commas.

use vstd::prelude::*;

use crate::text::join;

verus! {

/// A single tag.
/// Severity values: primary | secondary | success | info | warn | danger | contrast
#[derive(Debug)]
pub struct TransactionTag {
    pub tag: String,
    pub severity: String,
}

impl Clone for TransactionTag {
    fn clone(&self) -> (r: TransactionTag)
        ensures
            r == *self,
    {
        TransactionTag { tag: self.tag.clone(), severity: self.severity.clone() }
    }
}

/// A tag as a pair of texts.
pub open spec fn tag_view(t: TransactionTag) -> (Seq<char>, Seq<char>) {
    (t.tag@, t.severity@)
}

/// The views of a list of tags.
pub open spec fn tags_view(tags: Seq<TransactionTag>) -> Seq<(Seq<char>, Seq<char>)> {
    tags.map_values(|t: TransactionTag| tag_view(t))
}

/// The pieces of `s` between occurrences of `c`, as `str::split` gives them:
/// one piece more than there are `c`s, empty pieces included.
pub open spec fn split_on(s: Seq<char>, c: char) -> Seq<Seq<char>>
    decreases s.len(),
{
    if s.len() == 0 {
        seq![Seq::empty()]
    } else {
        let rest = split_on(s.drop_last(), c);
        if s.last() == c {
            rest.push(Seq::empty())
        } else {
            rest.update(rest.len() - 1, rest.last().push(s.last()))
        }
    }
}

/// The part of `s` before its first `c` (all of `s` when there is none).
pub open spec fn before_first(s: Seq<char>, c: char) -> Seq<char>
    decreases s.len(),
{
    if s.len() == 0 {
        s
    } else if s[0] == c {
        Seq::empty()
    } else {
        seq![s[0]] + before_first(s.drop_first(), c)
    }
}

/// The part of `s` after its first `c`, if it has one.
pub open spec fn after_first(s: Seq<char>, c: char) -> Option<Seq<char>>
    decreases s.len(),
{
    if s.len() == 0 {
        None
    } else if s[0] == c {
        Some(s.drop_first())
    } else {
        after_first(s.drop_first(), c)
    }
}

/// One `tag+severity` entry: the tag up to the first `+`, the severity after
/// it, `primary` when there is no `+`.
pub open spec fn decode_entry(e: Seq<char>) -> (Seq<char>, Seq<char>) {
    (
        before_first(e, '+'),
        match after_first(e, '+') {
            Some(sev) => sev,
            None => "primary"@,
        },
    )
}

/// The tags held by the tags column: none for a missing or empty text,
/// otherwise one per comma-separated entry.
pub open spec fn decode_tags(raw: Option<Seq<char>>) -> Seq<(Seq<char>, Seq<char>)> {
    match raw {
        Some(s) => if s.len() == 0 {
            Seq::empty()
        } else {
            split_on(s, ',').map_values(|e: Seq<char>| decode_entry(e))
        },
        None => Seq::empty(),
    }
}

/// The text the tags column holds for a list of tags: `tag+severity`
/// entries joined by commas.
pub open spec fn encode_tags(tags: Seq<(Seq<char>, Seq<char>)>) -> Seq<char> {
    join(tags.map_values(|t: (Seq<char>, Seq<char>)| t.0 + seq!['+'] + t.1), seq![','])
}

proof fn lemma_first_split(s: Seq<char>, c: char, p: int)
    requires
        0 <= p <= s.len(),
        forall|k: int| 0 <= k < p ==> s[k] != c,
        p < s.len() ==> s[p] == c,
    ensures
        before_first(s, c) == s.subrange(0, p),
        after_first(s, c) == (if p < s.len() { Some(s.subrange(p + 1, s.len() as int)) } else { None }),
    decreases p,
{
    if p > 0 {
        lemma_first_split(s.drop_first(), c, p - 1);
        assert(seq![s[0]] + s.drop_first().subrange(0, p - 1) =~= s.subrange(0, p));
        if p < s.len() {
            assert(s.drop_first().subrange(p, s.drop_first().len() as int) =~= s.subrange(p + 1, s.len() as int));
        }
    } else {
        if s.len() > 0 {
            assert(s.subrange(1, s.len() as int) =~= s.drop_first());
        }
        assert(s.subrange(0, 0) =~= Seq::<char>::empty());
    }
}

/// Reads one `tag+severity` entry.
fn decode_tag_entry(e: &str) -> (t: TransactionTag)
    ensures
        tag_view(t) == decode_entry(e@),
{
    let n = e.unicode_len();
    let mut p: usize = 0;
    while p < n && e.get_char(p) != '+'
        invariant
            0 <= p <= n,
            n == e@.len(),
            forall|k: int| 0 <= k < p ==> e@[k] != '+',
        decreases n - p,
    {
        p = p + 1;
    }
    proof {
        lemma_first_split(e@, '+', p as int);
    }
    let tag = String::from_str(e.substring_char(0, p));
    let severity = if p < n {
        String::from_str(e.substring_char(p + 1, n))
    } else {
        String::from_str("primary")
    };
    TransactionTag { tag, severity }
}

proof fn lemma_split_on_step(s: Seq<char>, c: char, i: int)
    requires
        0 <= i < s.len(),
    ensures
        split_on(s.take(i + 1), c) == (if s[i] == c {
            split_on(s.take(i), c).push(Seq::empty())
        } else {
            split_on(s.take(i), c).update(
                split_on(s.take(i), c).len() - 1,
                split_on(s.take(i), c).last().push(s[i]),
            )
        }),
{
    assert(s.take(i + 1).drop_last() =~= s.take(i));
}

proof fn lemma_split_on_nonempty(s: Seq<char>, c: char)
    ensures
        split_on(s, c).len() >= 1,
    decreases s.len(),
{
    if s.len() > 0 {
        lemma_split_on_nonempty(s.drop_last(), c);
    }
}

/// Reads the tags column of a transaction row: `tag+severity` entries
/// separated by commas; no tags for a missing or empty text.
pub fn parse_tags(raw: Option<String>) -> (tags: Vec<TransactionTag>)
    ensures
        tags_view(tags@) == decode_tags(
            match raw {
                Some(s) => Some(s@),
                None => None,
            },
        ),
{
    let mut tags: Vec<TransactionTag> = Vec::new();
    let s = match raw {
        Some(s) => s,
        None => {
            assert(tags_view(tags@) =~= Seq::empty());
            return tags;
        },
    };
    let text = s.as_str();
    let n = text.unicode_len();
    if n == 0 {
        assert(tags_view(tags@) =~= Seq::empty());
        return tags;
    }
    let ghost pieces = split_on(text@, ',');
    let mut start: usize = 0;
    let mut i: usize = 0;
    while i < n
        invariant
            0 <= start <= i <= n,
            n == text@.len(),
            split_on(text@.take(i as int), ',').len() == tags@.len() + 1,
            split_on(text@.take(i as int), ',').last() == text@.subrange(start as int, i as int),
            forall|k: int|
                0 <= k < tags@.len() ==> tag_view(#[trigger] tags@[k]) == decode_entry(
                    split_on(text@.take(i as int), ',')[k],
                ),
        decreases n - i,
    {
        proof {
            lemma_split_on_step(text@, ',', i as int);
            lemma_split_on_nonempty(text@.take(i as int), ',');
        }
        if text.get_char(i) == ',' {
            let ghost before = split_on(text@.take(i as int), ',');
            let entry = text.substring_char(start, i);
            let t = decode_tag_entry(entry);
            tags.push(t);
            start = i + 1;
            proof {
                assert(text@.subrange(start as int, i + 1) =~= Seq::<char>::empty());
                assert forall|k: int| 0 <= k < tags@.len() implies tag_view(#[trigger] tags@[k]) == decode_entry(
                    split_on(text@.take(i + 1), ',')[k],
                ) by {
                    if k < tags@.len() - 1 {
                        assert(split_on(text@.take(i + 1), ',')[k] == before[k]);
                    } else {
                        assert(split_on(text@.take(i + 1), ',')[k] == before.last());
                    }
                }
            }
        } else {
            proof {
                let before = split_on(text@.take(i as int), ',');
                assert(text@.subrange(start as int, i + 1) =~= text@.subrange(start as int, i as int).push(text@[i as int]));
                assert forall|k: int| 0 <= k < tags@.len() implies tag_view(#[trigger] tags@[k]) == decode_entry(
                    split_on(text@.take(i + 1), ',')[k],
                ) by {
                    assert(split_on(text@.take(i + 1), ',')[k] == before[k]);
                }
            }
        }
        i = i + 1;
    }
    let last = text.substring_char(start, n);
    let t = decode_tag_entry(last);
    tags.push(t);
    proof {
        assert(text@.take(n as int) =~= text@);
        let all = split_on(text@, ',');
        let expected = all.map_values(|e: Seq<char>| decode_entry(e));
        assert forall|k: int| 0 <= k < tags@.len() implies tag_view(#[trigger] tags@[k]) == expected[k] by {
            if k < tags@.len() - 1 {
            } else {
                assert(all[k] == all.last());
            }
        }
        assert(tags_view(tags@) =~= expected);
    }
    tags
}

/// `c` does not occur in `s`.
pub open spec fn free_of(s: Seq<char>, c: char) -> bool {
    forall|k: int| 0 <= k < s.len() ==> s[k] != c
}

proof fn lemma_split_on_append_free(a: Seq<char>, b: Seq<char>, c: char)
    requires
        free_of(b, c),
    ensures
        split_on(a + b, c) == split_on(a, c).update(split_on(a, c).len() - 1, split_on(a, c).last() + b),
    decreases b.len(),
{
    lemma_split_on_nonempty(a, c);
    if b.len() == 0 {
        assert(a + b =~= a);
        assert(split_on(a, c).last() + b =~= split_on(a, c).last());
        assert(split_on(a, c).update(split_on(a, c).len() - 1, split_on(a, c).last()) =~= split_on(a, c));
    } else {
        let b0 = b.drop_last();
        lemma_split_on_append_free(a, b0, c);
        assert((a + b).drop_last() =~= a + b0);
        assert((a + b).last() == b.last());
        let r = split_on(a, c);
        assert(free_of(b0, c));
        assert(b.last() != c);
        let rest = split_on(a + b0, c);
        assert(rest == r.update(r.len() - 1, r.last() + b0));
        assert(rest.len() == r.len());
        assert(rest.last() == r.last() + b0);
        assert(split_on(a + b, c) == rest.update(rest.len() - 1, rest.last().push(b.last())));
        assert(r.last() + b0 + seq![b.last()] =~= r.last() + b);
        assert((r.last() + b0).push(b.last()) =~= r.last() + b);
        assert(split_on(a + b, c) =~= r.update(r.len() - 1, r.last() + b));
    }
}

proof fn lemma_split_on_join(parts: Seq<Seq<char>>, c: char)
    requires
        parts.len() >= 1,
        forall|i: int| 0 <= i < parts.len() ==> free_of(#[trigger] parts[i], c),
    ensures
        split_on(join(parts, seq![c]), c) == parts,
    decreases parts.len(),
{
    if parts.len() == 1 {
        lemma_split_on_append_free(Seq::empty(), parts[0], c);
        assert(Seq::<char>::empty() + parts[0] =~= parts[0]);
        assert(Seq::<char>::empty() + parts[0] =~= parts[0]);
        assert(split_on(parts[0], c) =~= parts);
    } else {
        let init = parts.drop_last();
        assert forall|i: int| 0 <= i < init.len() implies free_of(#[trigger] init[i], c) by {
            assert(init[i] == parts[i]);
        }
        lemma_split_on_join(init, c);
        let a = join(init, seq![c]);
        assert((a + seq![c]).drop_last() =~= a);
        assert(split_on(a + seq![c], c) =~= init.push(Seq::empty()));
        lemma_split_on_append_free(a + seq![c], parts.last(), c);
        assert(a + seq![c] + parts.last() == join(parts, seq![c]));
        assert(Seq::<char>::empty() + parts.last() =~= parts.last());
        assert(init.push(Seq::empty()).update(init.len() as int, parts.last()) =~= parts);
    }
}

/// Reading back the tags column written for a non-empty list of tags gives
/// the same tags, provided no tag holds `,` or `+` and no severity holds `,`.
pub proof fn lemma_tags_roundtrip(tags: Seq<(Seq<char>, Seq<char>)>)
    requires
        tags.len() >= 1,
        forall|i: int|
            0 <= i < tags.len() ==> free_of((#[trigger] tags[i]).0, ',') && free_of(tags[i].0, '+')
                && free_of(tags[i].1, ','),
    ensures
        decode_tags(Some(encode_tags(tags))) == tags,
{
    let parts = tags.map_values(|t: (Seq<char>, Seq<char>)| t.0 + seq!['+'] + t.1);
    assert forall|i: int| 0 <= i < parts.len() implies free_of(#[trigger] parts[i], ',') by {
        assert(parts[i] == tags[i].0 + seq!['+'] + tags[i].1);
        assert forall|k: int| 0 <= k < parts[i].len() implies parts[i][k] != ',' by {
            if k < tags[i].0.len() {
            } else if k == tags[i].0.len() {
            } else {
                assert(parts[i][k] == tags[i].1[k - tags[i].0.len() - 1]);
            }
        }
    }
    lemma_split_on_join(parts, ',');
    assert(parts[0].len() >= 1);
    assert(join(parts, seq![',']).len() > 0) by {
        lemma_join_len(parts, seq![',']);
    }
    assert forall|i: int| 0 <= i < tags.len() implies decode_entry(#[trigger] parts[i]) == tags[i] by {
        let e = parts[i];
        let t = tags[i].0;
        assert(e == t + seq!['+'] + tags[i].1);
        lemma_first_split(e, '+', t.len() as int);
        assert(e.subrange(0, t.len() as int) =~= t);
        assert(e.subrange(t.len() as int + 1, e.len() as int) =~= tags[i].1);
    }
    assert(decode_tags(Some(encode_tags(tags))) =~= tags);
}

proof fn lemma_join_len(parts: Seq<Seq<char>>, sep: Seq<char>)
    requires
        parts.len() >= 1,
    ensures
        join(parts, sep).len() >= parts.last().len(),
    decreases parts.len(),
{
}

} // verus!
