//! Lists of names as one text, the names set apart by commas.

use crate::graph::ids;
use vstd::prelude::*;
use vstd::string::{StrSliceExecFns, StringExecFns};

verus! {

/// The texts `v`, one after the other, with a comma between each two.
pub open spec fn joined(v: Seq<Seq<char>>) -> Seq<char>
    decreases v.len(),
{
    if v.len() == 0 {
        Seq::empty()
    } else if v.len() == 1 {
        v[0]
    } else {
        joined(v.drop_last()) + seq![','] + v.last()
    }
}

/// The stretches of `text` between its commas, the empty ones too.
pub open spec fn fields(text: Seq<char>) -> Seq<Seq<char>>
    decreases text.len(),
{
    if text.len() == 0 {
        seq![Seq::empty()]
    } else {
        let f = fields(text.drop_last());
        if text.last() == ',' {
            f.push(Seq::empty())
        } else {
            f.drop_last().push(f.last().push(text.last()))
        }
    }
}

/// The stretches of `text` between its commas that are not empty.
pub open spec fn comma_list(text: Seq<char>) -> Seq<Seq<char>> {
    fields(text).filter(|f: Seq<char>| f.len() > 0)
}

/// The names `v` as one text.
pub fn serialize_comma_list(v: &Vec<String>) -> (text: String)
    ensures
        text@ == joined(ids(v@)),
{
    let mut text = String::new();
    let mut i: usize = 0;
    proof {
        reveal_strlit(",");
        assert(","@ =~= seq![',']);
        assert(ids(v@).take(0) =~= Seq::<Seq<char>>::empty());
    }
    while i < v.len()
        invariant
            i <= v.len(),
            ","@ == seq![','],
            text@ == joined(ids(v@).take(i as int)),
        decreases v.len() - i,
    {
        let ghost upto = ids(v@).take(i + 1);
        assert(upto.drop_last() =~= ids(v@).take(i as int));
        assert(upto.last() == v@[i as int]@);
        if i > 0 {
            text.append(",");
        } else {
            assert(text@ + v@[i as int]@ =~= v@[i as int]@);
        }
        text.append(v[i].as_str());
        i += 1;
    }
    assert(ids(v@).take(i as int) =~= ids(v@));
    text
}

/// A text has at least one stretch.
pub proof fn lemma_fields_some(text: Seq<char>)
    ensures
        fields(text).len() >= 1,
    decreases text.len(),
{
    if text.len() > 0 {
        lemma_fields_some(text.drop_last());
    }
}

/// The names in `text`: the stretches between its commas that are not empty.
pub fn deserialize_comma_list(text: &str) -> (names: Vec<String>)
    ensures
        ids(names@) == comma_list(text@),
{
    let ghost full = |f: Seq<char>| f.len() > 0;
    let n = text.unicode_len();
    let mut names: Vec<String> = Vec::new();
    let mut start: usize = 0;
    let mut i: usize = 0;
    proof {
        assert(text@.take(0) =~= Seq::<char>::empty());
        assert(fields(text@.take(0)).drop_last() =~= Seq::<Seq<char>>::empty());
        assert(Seq::<Seq<char>>::empty().filter(full) =~= Seq::<Seq<char>>::empty()) by {
            reveal(Seq::filter);
        }
        assert(text@.subrange(0, 0) =~= Seq::<char>::empty());
        assert(ids(names@) =~= Seq::<Seq<char>>::empty());
    }
    while i < n
        invariant
            n == text@.len(),
            start <= i <= n,
            full == |f: Seq<char>| f.len() > 0,
            fields(text@.take(i as int)).len() >= 1,
            fields(text@.take(i as int)).last() == text@.subrange(start as int, i as int),
            ids(names@) == fields(text@.take(i as int)).drop_last().filter(full),
        decreases n - i,
    {
        let ghost f = fields(text@.take(i as int));
        let ghost next = text@.take(i + 1);
        let ghost before = ids(names@);
        let c = text.get_char(i);
        proof {
            assert(next.drop_last() =~= text@.take(i as int));
            assert(next.last() == c);
            assert(f.drop_last().push(f.last()) =~= f);
            f.drop_last().lemma_filter_push(f.last(), full);
        }
        if c == ',' {
            if start < i {
                names.push(text.substring_char(start, i).to_owned());
                assert(ids(names@) =~= before.push(text@.subrange(start as int, i as int)));
            }
            start = i + 1;
            proof {
                assert(fields(next) == f.push(Seq::empty()));
                assert(f.push(Seq::<char>::empty()).drop_last() =~= f);
                assert(text@.subrange(i + 1, i + 1) =~= Seq::<char>::empty());
            }
        } else {
            proof {
                assert(fields(next) == f.drop_last().push(f.last().push(c)));
                assert(f.drop_last().push(f.last().push(c)).drop_last() =~= f.drop_last());
                assert(text@.subrange(start as int, i + 1) =~= text@.subrange(
                    start as int,
                    i as int,
                ).push(c));
            }
        }
        i += 1;
    }
    let ghost f = fields(text@);
    let ghost before = ids(names@);
    proof {
        assert(text@.take(n as int) =~= text@);
        assert(f.drop_last().push(f.last()) =~= f);
        f.drop_last().lemma_filter_push(f.last(), full);
    }
    if start < n {
        names.push(text.substring_char(start, n).to_owned());
        assert(ids(names@) =~= before.push(text@.subrange(start as int, n as int)));
    }
    names
}

/// No comma occurs in `name`.
pub open spec fn comma_free(name: Seq<char>) -> bool {
    forall|i: int| 0 <= i < name.len() ==> name[i] != ','
}

/// A text that goes on without a comma goes on in its last stretch.
pub proof fn lemma_fields_append(text: Seq<char>, more: Seq<char>)
    requires
        comma_free(more),
    ensures
        fields(text).len() >= 1,
        fields(text + more) == fields(text).drop_last().push(fields(text).last() + more),
    decreases more.len(),
{
    lemma_fields_some(text);
    let f = fields(text);
    if more.len() == 0 {
        assert(text + more =~= text);
        assert(f.last() + more =~= f.last());
        assert(f.drop_last().push(f.last()) =~= f);
    } else {
        let most = more.drop_last();
        let c = more.last();
        assert forall|i: int| 0 <= i < most.len() implies most[i] != ',' by {
            assert(most[i] == more[i]);
        }
        lemma_fields_append(text, most);
        assert((text + more).drop_last() =~= text + most);
        assert((text + more).last() == c);
        assert(c == more[more.len() - 1]);
        let g = fields(text + most);
        assert(g.drop_last() =~= f.drop_last());
        assert(g.last().push(c) =~= f.last() + more);
    }
}

/// The stretches of names joined by commas are those names, where no name holds a
/// comma.
pub proof fn lemma_fields_joined(v: Seq<Seq<char>>)
    requires
        v.len() >= 1,
        forall|k: int| 0 <= k < v.len() ==> comma_free(#[trigger] v[k]),
    ensures
        fields(joined(v)) == v,
    decreases v.len(),
{
    let nothing = Seq::<char>::empty();
    if v.len() == 1 {
        lemma_fields_append(nothing, v[0]);
        assert(nothing + v[0] =~= v[0]);
        assert(fields(nothing).drop_last().push(fields(nothing).last() + v[0]) =~= v);
    } else {
        let most = v.drop_last();
        assert forall|k: int| 0 <= k < most.len() implies comma_free(#[trigger] most[k]) by {
            assert(most[k] == v[k]);
        }
        lemma_fields_joined(most);
        let head = joined(most) + seq![','];
        assert(head.drop_last() =~= joined(most));
        assert(head.last() == ',');
        assert(fields(head) == most.push(nothing));
        lemma_fields_append(head, v.last());
        assert(most.push(nothing).drop_last() =~= most);
        assert(nothing + v.last() =~= v.last());
        assert(most.push(v.last()) =~= v);
    }
}

/// Names that were written as one text are read back as they were, where none of them
/// is empty or holds a comma.
pub proof fn lemma_comma_list_round_trip(v: Seq<Seq<char>>)
    requires
        forall|k: int| 0 <= k < v.len() ==> comma_free(#[trigger] v[k]) && v[k].len() > 0,
    ensures
        comma_list(joined(v)) == v,
{
    let full = |f: Seq<char>| f.len() > 0;
    if v.len() == 0 {
        let one = seq![Seq::<char>::empty()];
        assert(fields(joined(v)) == one);
        assert(one.filter(full) =~= Seq::<Seq<char>>::empty()) by {
            reveal_with_fuel(Seq::filter, 2);
            assert(one.drop_last() =~= Seq::<Seq<char>>::empty());
        }
    } else {
        lemma_fields_joined(v);
        lemma_filter_keeps_all(v);
    }
}

/// Leaving out the empty texts of a list that has none leaves the list as it is.
pub proof fn lemma_filter_keeps_all(v: Seq<Seq<char>>)
    requires
        forall|k: int| 0 <= k < v.len() ==> (#[trigger] v[k]).len() > 0,
    ensures
        v.filter(|f: Seq<char>| f.len() > 0) == v,
    decreases v.len(),
{
    let full = |f: Seq<char>| f.len() > 0;
    reveal(Seq::filter);
    if v.len() > 0 {
        let most = v.drop_last();
        assert forall|k: int| 0 <= k < most.len() implies (#[trigger] most[k]).len() > 0 by {
            assert(most[k] == v[k]);
        }
        lemma_filter_keeps_all(most);
        assert(most.push(v.last()) =~= v);
    } else {
        assert(v.filter(full) =~= v);
    }
}

} // verus!
