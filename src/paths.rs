use vstd::prelude::*;

use crate::error::MaterializeError;

verus! {

/// The path separator, `/`.
pub const SEP: u8 = 0x2f;

/// The current-directory component, `.`.
pub const DOT: u8 = 0x2e;

/// Adds the pending component `cur` to `done`, unless it is empty or `.`.
pub open spec fn flush(done: Seq<Seq<u8>>, cur: Seq<u8>) -> Seq<Seq<u8>> {
    if cur.len() == 0 || cur == seq![DOT] {
        done
    } else {
        done.push(cur)
    }
}

/// The components completed so far in `s`, and the one still being read.
pub open spec fn split(s: Seq<u8>) -> (Seq<Seq<u8>>, Seq<u8>)
    decreases s.len(),
{
    if s.len() == 0 {
        (seq![], seq![])
    } else {
        let (done, cur) = split(s.drop_last());
        if s.last() == SEP {
            (flush(done, cur), seq![])
        } else {
            (done, cur.push(s.last()))
        }
    }
}

/// The components of `p`: the runs of bytes between separators, leaving out
/// empty runs and `.`.
pub open spec fn components(p: Seq<u8>) -> Seq<Seq<u8>> {
    flush(split(p).0, split(p).1)
}

/// A path that names its components from the root: it starts with a separator.
pub open spec fn is_rooted(p: Seq<u8>) -> bool {
    p.len() > 0 && p[0] == SEP
}

/// `base` with the component `c` appended, a separator between them unless
/// `base` is empty or already ends with one.
pub open spec fn join(base: Seq<u8>, c: Seq<u8>) -> Seq<u8> {
    if base.len() > 0 && base.last() != SEP {
        base.push(SEP) + c
    } else {
        base + c
    }
}

/// `root` with the first `k` of `comps` appended, in order.
pub open spec fn accumulated(root: Seq<u8>, comps: Seq<Seq<u8>>, k: nat) -> Seq<u8>
    decreases k,
{
    if k == 0 || k > comps.len() {
        root
    } else {
        join(accumulated(root, comps, (k - 1) as nat), comps[k - 1])
    }
}

/// Every component that `split` and `flush` produce is non-empty.
proof fn lemma_split_nonempty(s: Seq<u8>)
    ensures
        forall|i: int| 0 <= i < split(s).0.len() ==> #[trigger] split(s).0[i].len() > 0,
    decreases s.len(),
{
    if s.len() > 0 {
        lemma_split_nonempty(s.drop_last());
        let (done, cur) = split(s.drop_last());
        if s.last() == SEP {
            lemma_flush_nonempty(done, cur);
        }
    }
}

/// `flush` keeps every component non-empty.
proof fn lemma_flush_nonempty(done: Seq<Seq<u8>>, cur: Seq<u8>)
    requires
        forall|i: int| 0 <= i < done.len() ==> #[trigger] done[i].len() > 0,
    ensures
        forall|i: int| 0 <= i < flush(done, cur).len() ==> #[trigger] flush(done, cur)[i].len() > 0,
{
    if !(cur.len() == 0 || cur == seq![DOT]) {
        assert forall|i: int| 0 <= i < flush(done, cur).len() implies #[trigger] flush(done, cur)[i].len() > 0 by {
            if i < done.len() {
                assert(flush(done, cur)[i] == done[i]);
            }
        }
    }
}

/// Every component of a path is non-empty.
pub proof fn lemma_components_nonempty(p: Seq<u8>)
    ensures
        forall|i: int| 0 <= i < components(p).len() ==> #[trigger] components(p)[i].len() > 0,
{
    lemma_split_nonempty(p);
    lemma_flush_nonempty(split(p).0, split(p).1);
}

/// Appending non-empty components makes the path strictly longer at each step.
pub proof fn lemma_accumulated_grows(root: Seq<u8>, comps: Seq<Seq<u8>>, j: nat, k: nat)
    requires
        j < k <= comps.len(),
        forall|i: int| 0 <= i < comps.len() ==> #[trigger] comps[i].len() > 0,
    ensures
        accumulated(root, comps, j).len() < accumulated(root, comps, k).len(),
    decreases k,
{
    assert(comps[k - 1].len() > 0);
    if j < k - 1 {
        lemma_accumulated_grows(root, comps, j, (k - 1) as nat);
    }
}

/// Splits `p` into its components, as `components` states.
pub fn split_components(p: &Vec<u8>) -> (r: Vec<Vec<u8>>)
    ensures
        r@.len() == components(p@).len(),
        forall|i: int| 0 <= i < r@.len() ==> #[trigger] r@[i]@ == components(p@)[i],
{
    let mut done: Vec<Vec<u8>> = Vec::new();
    let mut cur: Vec<u8> = Vec::new();
    let mut i: usize = 0;
    while i < p.len()
        invariant
            i <= p@.len(),
            done@.len() == split(p@.take(i as int)).0.len(),
            forall|j: int| 0 <= j < done@.len() ==> #[trigger] done@[j]@ == split(p@.take(i as int)).0[j],
            cur@ == split(p@.take(i as int)).1,
        decreases p@.len() - i,
    {
        assert(p@.take(i + 1).drop_last() == p@.take(i as int));
        let b = p[i];
        if b == SEP {
            push_component(&mut done, cur);
            cur = Vec::new();
        } else {
            cur.push(b);
        }
        i = i + 1;
    }
    assert(p@.take(i as int) == p@);
    push_component(&mut done, cur);
    done
}

/// Appends `cur` to `done` as `flush` states.
fn push_component(done: &mut Vec<Vec<u8>>, cur: Vec<u8>)
    ensures
        final(done)@.len() == flush(old(done)@.map_values(|v: Vec<u8>| v@), cur@).len(),
        forall|j: int| 0 <= j < final(done)@.len() ==>
            #[trigger] final(done)@[j]@ == flush(old(done)@.map_values(|v: Vec<u8>| v@), cur@)[j],
{
    let is_dot = cur.len() == 1 && cur[0] == DOT;
    proof {
        if cur@.len() == 1 {
            assert(is_dot == (cur@ == seq![DOT])) by {
                if cur@[0] == DOT {
                    assert(cur@ =~= seq![DOT]);
                }
            }
        } else {
            assert(cur@.len() != seq![DOT].len());
        }
    }
    if cur.len() > 0 && !is_dot {
        done.push(cur);
    }
}

/// Reading `/` followed by the first `i` bytes of a separator-free `c`
/// completes no component and holds those bytes pending.
proof fn lemma_split_single(c: Seq<u8>, i: int)
    requires
        0 <= i <= c.len(),
        forall|j: int| 0 <= j < c.len() ==> #[trigger] c[j] != SEP,
    ensures
        split((seq![SEP] + c).take(i + 1)) == (Seq::<Seq<u8>>::empty(), c.take(i)),
    decreases i,
{
    let p = seq![SEP] + c;
    if i == 0 {
        let s = p.take(1);
        assert(s.drop_last() =~= Seq::<u8>::empty());
        assert(split(s.drop_last()) == (Seq::<Seq<u8>>::empty(), Seq::<u8>::empty()));
        assert(s.last() == SEP);
        assert(flush(Seq::<Seq<u8>>::empty(), Seq::<u8>::empty()) == Seq::<Seq<u8>>::empty());
        assert(c.take(0) =~= Seq::<u8>::empty());
    } else {
        lemma_split_single(c, i - 1);
        let s = p.take(i + 1);
        assert(s.drop_last() =~= p.take(i));
        assert(s.last() == c[i - 1]);
        assert(c[i - 1] != SEP);
        assert(c.take(i) =~= c.take(i - 1).push(c[i - 1]));
    }
}

/// A rooted path of one component, `/c`, has exactly that one component,
/// so materializing it takes exactly one step.
pub proof fn lemma_single_component(c: Seq<u8>)
    requires
        c.len() > 0,
        c != seq![DOT],
        forall|j: int| 0 <= j < c.len() ==> #[trigger] c[j] != SEP,
    ensures
        is_rooted(seq![SEP] + c),
        components(seq![SEP] + c) == seq![c],
{
    let p = seq![SEP] + c;
    lemma_split_single(c, c.len() as int);
    assert(p.take(c.len() as int + 1) =~= p);
    assert(c.take(c.len() as int) =~= c);
    assert(Seq::<Seq<u8>>::empty().push(c) =~= seq![c]);
}

/// One step of the walk: the same prefix of the requested path under the
/// source root and under the target root.
#[derive(Clone, Debug, PartialEq, Eq)]
pub struct AccumulatedPair {
    pub source: Vec<u8>,
    pub target: Vec<u8>,
}

/// Appends the bytes of `src` to `dst`.
fn append_bytes(dst: &mut Vec<u8>, src: &Vec<u8>)
    ensures
        final(dst)@ == old(dst)@ + src@,
{
    let ghost start = dst@;
    let mut i: usize = 0;
    while i < src.len()
        invariant
            i <= src@.len(),
            dst@ == start + src@.take(i as int),
        decreases src@.len() - i,
    {
        assert(src@.take(i + 1) == src@.take(i as int).push(src@[i as int]));
        dst.push(src[i]);
        i = i + 1;
    }
    assert(src@.take(i as int) == src@);
}

/// `base` with the component `c` appended, as `join` states.
pub fn join_component(base: &Vec<u8>, c: &Vec<u8>) -> (r: Vec<u8>)
    ensures
        r@ == join(base@, c@),
{
    let mut r: Vec<u8> = Vec::new();
    append_bytes(&mut r, base);
    if base.len() > 0 && base[base.len() - 1] != SEP {
        r.push(SEP);
    }
    append_bytes(&mut r, c);
    proof {
        if base@.len() > 0 {
            assert(base@.last() == base@[base@.len() - 1]);
        }
        assert(Seq::<u8>::empty() + base@ == base@);
    }
    r
}

/// The components of a rooted path, the leading separator discarded; a path
/// that does not start with a separator is refused.
pub fn relative_components(path: &Vec<u8>) -> (r: Result<Vec<Vec<u8>>, MaterializeError>)
    ensures
        match r {
            Ok(comps) => is_rooted(path@) && comps@.len() == components(path@).len() && forall|i: int|
                0 <= i < comps@.len() ==> #[trigger] comps@[i]@ == components(path@)[i],
            Err(e) => !is_rooted(path@) && e is NotRooted && e.path_of() == path@,
        },
{
    if path.len() == 0 || path[0] != SEP {
        let mut p: Vec<u8> = Vec::new();
        append_bytes(&mut p, path);
        return Err(MaterializeError::NotRooted(p));
    }
    Ok(split_components(path))
}

/// The pairs of paths to materialize, shallowest first: for each prefix of
/// the requested path's components, that prefix under each root.
pub fn accumulate_pairs(source_root: &Vec<u8>, target_root: &Vec<u8>, path: &Vec<u8>) -> (r: Result<
    Vec<AccumulatedPair>,
    MaterializeError,
>)
    ensures
        match r {
            Ok(pairs) => is_rooted(path@) && pairs@.len() == components(path@).len() && forall|k: int|
                0 <= k < pairs@.len() ==> {
                    &&& (#[trigger] pairs@[k]).source@ == accumulated(
                        source_root@,
                        components(path@),
                        (k + 1) as nat,
                    )
                    &&& pairs@[k].target@ == accumulated(
                        target_root@,
                        components(path@),
                        (k + 1) as nat,
                    )
                },
            Err(e) => !is_rooted(path@) && e is NotRooted && e.path_of() == path@,
        },
{
    let comps = match relative_components(path) {
        Ok(c) => c,
        Err(e) => return Err(e),
    };
    let ghost cs = components(path@);
    let mut pairs: Vec<AccumulatedPair> = Vec::new();
    let mut src: Vec<u8> = Vec::new();
    append_bytes(&mut src, source_root);
    let mut dst: Vec<u8> = Vec::new();
    append_bytes(&mut dst, target_root);
    assert(src@ == source_root@ && dst@ == target_root@);
    let mut k: usize = 0;
    while k < comps.len()
        invariant
            comps@.len() == cs.len(),
            forall|i: int| 0 <= i < comps@.len() ==> #[trigger] comps@[i]@ == cs[i],
            k <= comps@.len(),
            pairs@.len() == k,
            src@ == accumulated(source_root@, cs, k as nat),
            dst@ == accumulated(target_root@, cs, k as nat),
            forall|j: int|
                0 <= j < k ==> {
                    &&& (#[trigger] pairs@[j]).source@ == accumulated(source_root@, cs, (j + 1) as nat)
                    &&& pairs@[j].target@ == accumulated(target_root@, cs, (j + 1) as nat)
                },
        decreases comps@.len() - k,
    {
        src = join_component(&src, &comps[k]);
        dst = join_component(&dst, &comps[k]);
        let mut s: Vec<u8> = Vec::new();
        append_bytes(&mut s, &src);
        let mut t: Vec<u8> = Vec::new();
        append_bytes(&mut t, &dst);
        assert(s@ == src@ && t@ == dst@);
        pairs.push(AccumulatedPair { source: s, target: t });
        k = k + 1;
    }
    Ok(pairs)
}

} // verus!
