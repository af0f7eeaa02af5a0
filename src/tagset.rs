use vstd::prelude::*;

verus! {

/// The set of tag texts held by a list of tags.
pub open spec fn tag_set(tags: Seq<String>) -> Set<Seq<char>> {
    Set::new(|t: Seq<char>| exists|i: int| 0 <= i < tags.len() && tags[i]@ == t)
}

/// No tag text occurs twice in the list.
pub open spec fn distinct_tags(tags: Seq<String>) -> bool {
    forall|i: int, j: int| 0 <= i < j < tags.len() ==> tags[i]@ != tags[j]@
}

/// Whether `tag` is among `tags`.
pub fn contains_tag(tags: &Vec<String>, tag: &String) -> (r: bool)
    ensures
        r == tag_set(tags@).contains(tag@),
{
    let mut i: usize = 0;
    while i < tags.len()
        invariant
            i <= tags.len(),
            forall|k: int| 0 <= k < i ==> tags@[k]@ != tag@,
        decreases tags.len() - i,
    {
        if tags[i] == *tag {
            return true;
        }
        i += 1;
    }
    false
}

proof fn lemma_tag_set_push(s: Seq<String>, x: String)
    ensures
        tag_set(s.push(x)) == tag_set(s).insert(x@),
{
    let p = s.push(x);
    assert forall|t: Seq<char>| tag_set(p).contains(t) implies tag_set(s).insert(x@).contains(t) by {
        let k = choose|k: int| 0 <= k < p.len() && p[k]@ == t;
        if k < s.len() {
            assert(p[k] == s[k]);
        }
    }
    assert forall|t: Seq<char>| tag_set(s).insert(x@).contains(t) implies tag_set(p).contains(t) by {
        if t == x@ {
            assert(p[s.len() as int] == x);
        } else {
            let k = choose|k: int| 0 <= k < s.len() && s[k]@ == t;
            assert(p[k] == s[k]);
        }
    }
    assert(tag_set(p) =~= tag_set(s).insert(x@));
}

proof fn lemma_tag_set_prefix(s: Seq<String>, j: int)
    requires
        0 <= j < s.len(),
    ensures
        tag_set(s.subrange(0, j + 1)) == tag_set(s.subrange(0, j)).insert(s[j]@),
{
    assert(s.subrange(0, j + 1) =~= s.subrange(0, j).push(s[j]));
    lemma_tag_set_push(s.subrange(0, j), s[j]);
}

proof fn lemma_tag_set_whole(s: Seq<String>)
    ensures
        tag_set(s.subrange(0, s.len() as int)) == tag_set(s),
{
    assert(s.subrange(0, s.len() as int) =~= s);
}

/// `extra` added to `base`, each tag text once: the set union.
pub fn union_tags(base: &Vec<String>, extra: &Vec<String>) -> (r: Vec<String>)
    requires
        distinct_tags(base@),
    ensures
        distinct_tags(r@),
        tag_set(r@) == tag_set(base@).union(tag_set(extra@)),
{
    let mut r: Vec<String> = Vec::new();
    let mut i: usize = 0;
    while i < base.len()
        invariant
            i <= base.len(),
            distinct_tags(base@),
            r@ == base@.subrange(0, i as int),
        decreases base.len() - i,
    {
        r.push(base[i].clone());
        assert(r@ =~= base@.subrange(0, i + 1));
        i += 1;
    }
    proof {
        lemma_tag_set_whole(base@);
        assert(tag_set(extra@.subrange(0, 0)) =~= Set::empty());
        assert(tag_set(r@) =~= tag_set(base@).union(tag_set(extra@.subrange(0, 0))));
    }
    let mut j: usize = 0;
    while j < extra.len()
        invariant
            j <= extra.len(),
            distinct_tags(r@),
            tag_set(r@) == tag_set(base@).union(tag_set(extra@.subrange(0, j as int))),
        decreases extra.len() - j,
    {
        let ghost prev = r@;
        proof {
            lemma_tag_set_prefix(extra@, j as int);
        }
        if !contains_tag(&r, &extra[j]) {
            r.push(extra[j].clone());
            proof {
                lemma_tag_set_push(prev, extra@[j as int]);
                assert forall|a: int, b: int| 0 <= a < b < r@.len() implies r@[a]@ != r@[b]@ by {
                    if b == prev.len() {
                        assert(tag_set(prev).contains(prev[a]@));
                    }
                }
            }
        }
        assert(tag_set(r@) =~= tag_set(base@).union(tag_set(extra@.subrange(0, j + 1))));
        j += 1;
    }
    proof {
        lemma_tag_set_whole(extra@);
    }
    r
}

/// The tags of `base` that `remove` does not name: the set difference.
pub fn subtract_tags(base: &Vec<String>, remove: &Vec<String>) -> (r: Vec<String>)
    requires
        distinct_tags(base@),
    ensures
        distinct_tags(r@),
        tag_set(r@) == tag_set(base@).difference(tag_set(remove@)),
{
    let mut r: Vec<String> = Vec::new();
    let mut i: usize = 0;
    proof {
        assert(tag_set(base@.subrange(0, 0)) =~= Set::empty());
        assert(tag_set(r@) =~= Set::empty());
    }
    while i < base.len()
        invariant
            i <= base.len(),
            distinct_tags(base@),
            distinct_tags(r@),
            tag_set(r@) == tag_set(base@.subrange(0, i as int)).difference(tag_set(remove@)),
        decreases base.len() - i,
    {
        let ghost prev = r@;
        proof {
            lemma_tag_set_prefix(base@, i as int);
        }
        if !contains_tag(remove, &base[i]) {
            r.push(base[i].clone());
            proof {
                lemma_tag_set_push(prev, base@[i as int]);
                assert forall|a: int, b: int| 0 <= a < b < r@.len() implies r@[a]@ != r@[b]@ by {
                    if b == prev.len() {
                        assert(tag_set(prev).contains(prev[a]@));
                        let k = choose|k: int| 0 <= k < i && base@.subrange(0, i as int)[k]@ == prev[a]@;
                        assert(base@.subrange(0, i as int)[k] == base@[k]);
                    }
                }
            }
        }
        assert(tag_set(r@) =~= tag_set(base@.subrange(0, i + 1)).difference(tag_set(remove@)));
        i += 1;
    }
    proof {
        lemma_tag_set_whole(base@);
    }
    r
}

/// Whether every tag of `required` is among `tags`.
pub fn has_all(tags: &Vec<String>, required: &Vec<String>) -> (r: bool)
    ensures
        r == tag_set(required@).subset_of(tag_set(tags@)),
{
    let mut i: usize = 0;
    while i < required.len()
        invariant
            i <= required.len(),
            forall|k: int| 0 <= k < i ==> tag_set(tags@).contains(#[trigger] required@[k]@),
        decreases required.len() - i,
    {
        if !contains_tag(tags, &required[i]) {
            assert(tag_set(required@).contains(required@[i as int]@));
            return false;
        }
        i += 1;
    }
    true
}

/// Whether no tag of `excluded` is among `tags`.
pub fn has_none(tags: &Vec<String>, excluded: &Vec<String>) -> (r: bool)
    ensures
        r == tag_set(excluded@).disjoint(tag_set(tags@)),
{
    let mut i: usize = 0;
    while i < excluded.len()
        invariant
            i <= excluded.len(),
            forall|k: int| 0 <= k < i ==> !tag_set(tags@).contains(#[trigger] excluded@[k]@),
        decreases excluded.len() - i,
    {
        if contains_tag(tags, &excluded[i]) {
            assert(tag_set(excluded@).contains(excluded@[i as int]@));
            return false;
        }
        i += 1;
    }
    true
}

/// Whether a file with `tags` answers a search: it carries every tag of
/// `find` and none of `exclude`.
pub open spec fn matches_search(find: Set<Seq<char>>, exclude: Set<Seq<char>>, tags: Set<Seq<char>>) -> bool {
    find.subset_of(tags) && exclude.disjoint(tags)
}

/// Whether a file with `tags` answers the search for `find` without `exclude`.
pub fn tags_match(find: &Vec<String>, exclude: &Vec<String>, tags: &Vec<String>) -> (r: bool)
    ensures
        r == matches_search(tag_set(find@), tag_set(exclude@), tag_set(tags@)),
{
    has_all(tags, find) && has_none(tags, exclude)
}

} // verus!
