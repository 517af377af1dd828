//! The shorthand of a signature is read back.

use crate::react::bare_fields;
use crate::signature::{
    distinct, lemma_types_apart, lemma_upsert_all_fresh, names, piece_field, piece_fields,
    shorthand_of, side_fields, sig_of_text, FieldSpec, FieldType, SigSpec,
};
use crate::text::{
    find_first, has_text, is_white, join_of, lemma_find_from, lemma_find_is, lemma_split_len,
    lemma_trim_back, lemma_trim_front, occurs_at, split_of, trim_end_of, trim_of, trim_start_of,
};
use vstd::prelude::*;

verus! {

/// A name that shorthand can hold: it is neither empty nor padded, and holds neither
/// a comma nor a colon.
pub open spec fn short_name(n: Seq<char>) -> bool {
    &&& n.len() > 0
    &&& trim_of(n) == n
    &&& !n.contains(',')
    &&& !n.contains(':')
}

/// No arrow stands in a text.
pub open spec fn no_arrow(s: Seq<char>) -> bool {
    forall|k: int| 0 <= k < s.len() - 1 ==> !(#[trigger] s[k] == '-' && s[k + 1] == '>')
}

/// The ends of a text that trimming leaves as it is are not white.
proof fn lemma_trimmed_ends(s: Seq<char>)
    requires
        s.len() > 0,
        trim_of(s) == s,
    ensures
        !is_white(s[0]),
        !is_white(s.last()),
{
    lemma_trim_start_len(s);
    lemma_trim_end_len(trim_start_of(s));
    if is_white(s[0]) {
        lemma_trim_start_len(s.subrange(1, s.len() as int));
    }
    assert(trim_start_of(s) == s);
    if is_white(s.last()) {
        lemma_trim_end_len(s.drop_last());
    }
}

proof fn lemma_trim_start_len(s: Seq<char>)
    ensures
        trim_start_of(s).len() <= s.len(),
    decreases s.len(),
{
    if s.len() > 0 && is_white(s[0]) {
        lemma_trim_start_len(s.subrange(1, s.len() as int));
    }
}

proof fn lemma_trim_end_len(s: Seq<char>)
    ensures
        trim_end_of(s).len() <= s.len(),
    decreases s.len(),
{
    if s.len() > 0 && is_white(s.last()) {
        lemma_trim_end_len(s.drop_last());
    }
}

/// What has no comma goes to the last piece.
proof fn lemma_split_append(a: Seq<char>, b: Seq<char>)
    requires
        !b.contains(','),
    ensures
        split_of(a + b, ',') == split_of(a, ',').drop_last().push(split_of(a, ',').last() + b),
    decreases b.len(),
{
    let x = split_of(a, ',');
    lemma_split_len(a, ',');
    if b.len() == 0 {
        assert(a + b =~= a);
        assert(x.last() + b =~= x.last());
        assert(x =~= x.drop_last().push(x.last() + b));
    } else {
        let c = b.drop_last();
        assert(!c.contains(',')) by {
            if c.contains(',') {
                let i = choose|i: int| 0 <= i < c.len() && c[i] == ',';
                assert(b[i] == ',');
            }
        }
        assert(b[b.len() - 1] != ',');
        lemma_split_append(a, c);
        let whole = a + b;
        assert(whole.drop_last() =~= a + c);
        assert(whole.last() == b.last());
        let y = split_of(a + c, ',');
        assert(y.drop_last() =~= x.drop_last());
        assert((x.last() + c).push(b.last()) =~= x.last() + b);
    }
}

/// What stands in a joined text: its pieces are the names, each but the first behind
/// a space; it begins and ends as they do; and it has no arrow where they have none.
proof fn lemma_joined(v: Seq<Seq<char>>, t: FieldType)
    requires
        v.len() > 0,
        forall|i: int| 0 <= i < v.len() ==> short_name(#[trigger] v[i]),
    ensures
        piece_fields(split_of(join_of(v, ", "@), ','), t) == bare_fields(v, t),
        join_of(v, ", "@).len() > 0,
        !is_white(join_of(v, ", "@)[0]),
        !is_white(join_of(v, ", "@).last()),
        (forall|i: int| 0 <= i < v.len() ==> no_arrow(#[trigger] v[i])) ==> no_arrow(
            join_of(v, ", "@),
        ),
    decreases v.len(),
{
    reveal_strlit(", ");
    let n = v.last();
    assert(short_name(v[v.len() - 1]));
    lemma_trimmed_ends(n);
    lemma_bare_piece(n, t);
    if v.len() == 1 {
        let none = Seq::<char>::empty();
        lemma_split_append(none, n);
        assert(none + n =~= n);
        assert(split_of(none, ',') =~= seq![none]);
        assert(split_of(n, ',') =~= seq![n]);
        assert(split_of(n, ',').drop_last() =~= Seq::<Seq<char>>::empty());
        assert(piece_fields(seq![n].drop_last(), t) =~= Seq::<FieldSpec>::empty());
        assert(piece_fields(seq![n], t) =~= seq![FieldSpec::bare(n, t)]);
        assert(bare_fields(v, t) =~= seq![FieldSpec::bare(n, t)]);
        assert(v[0] == n);
    } else {
        let front = v.drop_last();
        assert forall|i: int| 0 <= i < front.len() implies short_name(#[trigger] front[i]) by {
            assert(short_name(v[i]));
        }
        lemma_joined(front, t);
        let j = join_of(front, ", "@);
        let whole = join_of(v, ", "@);
        let spaced = seq![' '] + n;
        let cut = j.push(',');
        assert(whole =~= cut + spaced);
        assert(cut.drop_last() =~= j);
        assert(!spaced.contains(',')) by {
            if spaced.contains(',') {
                let i = choose|i: int| 0 <= i < spaced.len() && spaced[i] == ',';
                assert(n[i - 1] == ',');
            }
        }
        lemma_split_append(cut, spaced);
        let pieces = split_of(j, ',');
        assert(split_of(cut, ',') == pieces.push(Seq::empty()));
        assert(Seq::<char>::empty() + spaced =~= spaced);
        assert(split_of(whole, ',') =~= pieces.push(spaced));
        assert(pieces.push(spaced).drop_last() =~= pieces);
        lemma_trim_front(' ', n);
        assert(piece_fields(pieces.push(spaced), t) == piece_fields(pieces, t).push(
            FieldSpec::bare(n, t),
        ));
        assert(bare_fields(v, t) =~= bare_fields(front, t).push(FieldSpec::bare(n, t)));
        assert(whole[0] == j[0]);
        assert(whole.last() == n.last());
        if forall|i: int| 0 <= i < v.len() ==> no_arrow(#[trigger] v[i]) {
            assert forall|i: int| 0 <= i < front.len() implies no_arrow(#[trigger] front[i]) by {
                assert(no_arrow(v[i]));
            }
            assert(no_arrow(v[v.len() - 1]));
            let at = j.len() as int;
            assert forall|k: int| 0 <= k < whole.len() - 1 implies !(#[trigger] whole[k] == '-'
                && whole[k + 1] == '>') by {
                if k < at - 1 {
                    assert(whole[k] == j[k] && whole[k + 1] == j[k + 1]);
                } else if k == at - 1 {
                    assert(whole[k + 1] == ',');
                } else if k == at {
                    assert(whole[k] == ',');
                } else if k == at + 1 {
                    assert(whole[k] == ' ');
                } else {
                    assert(whole[k] == n[k - at - 2] && whole[k + 1] == n[k - at - 1]);
                }
            }
        }
    }
}

/// A name that shorthand can hold is a field with a name and no more.
proof fn lemma_bare_piece(n: Seq<char>, t: FieldType)
    requires
        short_name(n),
    ensures
        piece_field(n, t) == FieldSpec::bare(n, t),
{
    reveal_strlit(":");
    lemma_find_from(n, ":"@, 0);
    if let Some(p) = find_first(n, ":"@) {
        assert(n.subrange(p, p + 1)[0] == ':');
        assert(n[p] == ':');
    }
}

/// Each side of the shorthand stands for its names.
proof fn lemma_side(v: Seq<Seq<char>>, t: FieldType)
    requires
        forall|i: int| 0 <= i < v.len() ==> short_name(#[trigger] v[i]),
    ensures
        side_fields(join_of(v, ", "@).push(' '), t) == bare_fields(v, t),
        side_fields(seq![' '] + join_of(v, ", "@), t) == bare_fields(v, t),
{
    let j = join_of(v, ", "@);
    lemma_trim_back(j, ' ');
    lemma_trim_front(' ', j);
    if v.len() == 0 {
        assert(j =~= Seq::<char>::empty());
        assert(trim_of(j) =~= j);
        let one = split_of(j, ',');
        assert(one =~= seq![Seq::<char>::empty()]);
        assert(one.drop_last() =~= Seq::<Seq<char>>::empty());
        assert(piece_fields(one.drop_last(), t) =~= Seq::<FieldSpec>::empty());
        assert(trim_of(one.last()).len() == 0);
        assert(bare_fields(v, t) =~= Seq::<FieldSpec>::empty());
    } else {
        lemma_joined(v, t);
        assert(trim_of(j) == j);
    }
}

/// The arrow of the shorthand is the first in it.
proof fn lemma_arrow(j: Seq<char>, k: Seq<char>)
    requires
        no_arrow(j),
    ensures
        find_first(j + " -> "@ + k, "->"@) == Some(j.len() as int + 1),
{
    reveal_strlit(" -> ");
    reveal_strlit("->");
    let whole = j + " -> "@ + k;
    let at = j.len() as int + 1;
    assert(whole.subrange(at, at + 2) =~= "->"@);
    assert forall|i: int| 0 <= i < at implies !occurs_at(whole, "->"@, i) by {
        if occurs_at(whole, "->"@, i) {
            assert(whole.subrange(i, i + 2)[0] == '-');
            assert(whole.subrange(i, i + 2)[1] == '>');
            assert(whole[i] == '-' && whole[i + 1] == '>');
            if i < j.len() - 1 {
                assert(j[i] == '-' && j[i + 1] == '>');
            } else if i == j.len() - 1 {
                assert(whole[i + 1] == ' ');
            } else {
                assert(whole[i] == ' ');
            }
        }
    }
    lemma_find_is(whole, "->"@, 0, at);
}

/// The shorthand of a signature is read back: its fields come back by their names,
/// the inputs first.
pub proof fn law_shorthand_is_read_back(s: SigSpec)
    requires
        distinct(s.fields),
        s.inputs().len() + s.outputs().len() > 0,
        forall|i: int| 0 <= i < s.inputs().len() ==> short_name(#[trigger] s.inputs()[i].name),
        forall|i: int| 0 <= i < s.inputs().len() ==> !has_text(
            #[trigger] s.inputs()[i].name,
            "->"@,
        ),
        forall|i: int| 0 <= i < s.outputs().len() ==> short_name(#[trigger] s.outputs()[i].name),
    ensures
        sig_of_text(shorthand_of(s)) == Ok::<SigSpec, Seq<char>>(
            SigSpec {
                instructions: Seq::empty(),
                fields: bare_fields(names(s.inputs()), FieldType::Input) + bare_fields(
                    names(s.outputs()),
                    FieldType::Output,
                ),
            },
        ),
{
    let ins = names(s.inputs());
    let outs = names(s.outputs());
    let j = join_of(ins, ", "@);
    let k = join_of(outs, ", "@);
    let whole = shorthand_of(s);
    assert forall|i: int| 0 <= i < ins.len() implies short_name(#[trigger] ins[i]) by {
        assert(short_name(s.inputs()[i].name));
    }
    assert forall|i: int| 0 <= i < outs.len() implies short_name(#[trigger] outs[i]) by {
        assert(short_name(s.outputs()[i].name));
    }
    assert forall|i: int| 0 <= i < ins.len() implies no_arrow(#[trigger] ins[i]) by {
        let n = s.inputs()[i].name;
        assert(!has_text(n, "->"@));
        lemma_find_from(n, "->"@, 0);
        reveal_strlit("->");
        assert forall|q: int| 0 <= q < n.len() - 1 implies !(#[trigger] n[q] == '-' && n[q + 1]
            == '>') by {
            if n[q] == '-' && n[q + 1] == '>' {
                assert(n.subrange(q, q + 2) =~= "->"@);
                assert(occurs_at(n, "->"@, q));
            }
        }
    }
    if ins.len() > 0 {
        lemma_joined(ins, FieldType::Input);
    }
    lemma_arrow(j, k);
    lemma_side(ins, FieldType::Input);
    lemma_side(outs, FieldType::Output);
    reveal_strlit(" -> ");
    let at = j.len() as int + 1;
    assert(whole.subrange(0, at) =~= j.push(' '));
    assert(whole.subrange(at + 2, whole.len() as int) =~= seq![' '] + k);
    let a = bare_fields(ins, FieldType::Input);
    let b = bare_fields(outs, FieldType::Output);
    lemma_types_apart(s.fields);
    assert(names(a + b) =~= names(s.inputs() + s.outputs()));
    assert(Seq::<FieldSpec>::empty() + (a + b) =~= a + b);
    lemma_upsert_all_fresh(Seq::empty(), a + b);
}

} // verus!
