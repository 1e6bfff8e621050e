//! Lexically scoped variable environment: a stack of frames, each a list of
//! name/value bindings.
//!
//! A frame's bindings are ordered oldest first; when a name is bound twice in
//! the same frame the binding nearest the end is the live one, so re-declaring
//! a name overwrites it observably.  Lookup and assignment search the frames
//! from the innermost (top of the stack) outward.

use vstd::prelude::*;

verus! {

/// The abstract value of a [`Scope`]: frames of (name, value) pairs,
/// outermost frame first.
pub type ScopeView = Seq<Seq<(Seq<char>, isize)>>;

/// Value of `name` in a single frame: the binding nearest the end wins.
pub open spec fn frame_find(f: Seq<(Seq<char>, isize)>, name: Seq<char>) -> Option<isize>
    decreases f.len(),
{
    if f.len() == 0 {
        None
    } else if f.last().0 == name {
        Some(f.last().1)
    } else {
        frame_find(f.drop_last(), name)
    }
}

/// Value of `name` in a whole scope: innermost frame first.
pub open spec fn scope_find(s: ScopeView, name: Seq<char>) -> Option<isize>
    decreases s.len(),
{
    if s.len() == 0 {
        None
    } else {
        match frame_find(s.last(), name) {
            Some(v) => Some(v),
            None => scope_find(s.drop_last(), name),
        }
    }
}

/// A frame with the live binding of `name` (if any) replaced by `value`.
pub open spec fn frame_assign(
    f: Seq<(Seq<char>, isize)>,
    name: Seq<char>,
    value: isize,
) -> Seq<(Seq<char>, isize)>
    decreases f.len(),
{
    if f.len() == 0 {
        f
    } else if f.last().0 == name {
        f.drop_last().push((name, value))
    } else {
        frame_assign(f.drop_last(), name, value).push(f.last())
    }
}

/// A scope with the innermost live binding of `name` (if any) replaced by
/// `value`.  When no frame binds `name` this is the identity.
pub open spec fn scope_assign(s: ScopeView, name: Seq<char>, value: isize) -> ScopeView
    decreases s.len(),
{
    if s.len() == 0 {
        s
    } else if frame_find(s.last(), name) is Some {
        s.drop_last().push(frame_assign(s.last(), name, value))
    } else {
        scope_assign(s.drop_last(), name, value).push(s.last())
    }
}

/// A scope with `name = value` freshly bound in the innermost frame.
/// Meaningful only when at least one frame exists.
pub open spec fn scope_declare(s: ScopeView, name: Seq<char>, value: isize) -> ScopeView {
    s.drop_last().push(s.last().push((name, value)))
}

/// A scope with one more (empty) innermost frame.
pub open spec fn scope_push_frame(s: ScopeView) -> ScopeView {
    s.push(Seq::empty())
}

/// A scope with the innermost frame removed; the identity on an empty stack.
pub open spec fn scope_pop_frame(s: ScopeView) -> ScopeView {
    if s.len() > 0 {
        s.drop_last()
    } else {
        s
    }
}

/// The view of a freshly constructed scope: a single empty base frame.
pub open spec fn scope_init() -> ScopeView {
    seq![Seq::empty()]
}

/// Assignment never adds or removes a frame.
pub proof fn lemma_scope_assign_len(s: ScopeView, name: Seq<char>, value: isize)
    ensures
        scope_assign(s, name, value).len() == s.len(),
    decreases s.len(),
{
    if s.len() == 0 {
    } else if frame_find(s.last(), name) is Some {
    } else {
        lemma_scope_assign_len(s.drop_last(), name, value);
    }
}

/// A fresh binding is what lookup sees afterwards.
pub proof fn lemma_declare_find(s: ScopeView, name: Seq<char>, value: isize)
    requires
        s.len() >= 1,
    ensures
        scope_find(scope_declare(s, name, value), name) == Some(value),
{
    let d = scope_declare(s, name, value);
    assert(d.last() == s.last().push((name, value)));
    assert(frame_find(d.last(), name) == Some(value));
}

/// A fresh binding of one name changes no other name.
pub proof fn lemma_declare_find_other(
    s: ScopeView,
    name: Seq<char>,
    value: isize,
    other: Seq<char>,
)
    requires
        s.len() >= 1,
        other != name,
    ensures
        scope_find(scope_declare(s, name, value), other) == scope_find(s, other),
{
    let d = scope_declare(s, name, value);
    assert(d.last() == s.last().push((name, value)));
    assert(d.last().drop_last() =~= s.last());
    assert(frame_find(d.last(), other) == frame_find(s.last(), other));
    assert(d.drop_last() =~= s.drop_last());
}

/// Opening a block, declaring inside it, and retiring the block leaves the
/// scope exactly as it was: a shadowing declaration is local to its frame.
pub proof fn lemma_block_shadowing_is_local(s: ScopeView, name: Seq<char>, value: isize)
    ensures
        scope_pop_frame(scope_declare(scope_push_frame(s), name, value)) == s,
{
    assert(scope_pop_frame(scope_declare(scope_push_frame(s), name, value)) =~= s);
}

/// Assigning with a fresh, empty frame on top updates the enclosing frames
/// exactly as assigning without it: assignment, unlike declaration,
/// crosses the block boundary.
pub proof fn lemma_assign_crosses_frame(s: ScopeView, name: Seq<char>, value: isize)
    ensures
        scope_assign(scope_push_frame(s), name, value) == scope_push_frame(
            scope_assign(s, name, value),
        ),
{
    let t = scope_push_frame(s);
    assert(t.last() =~= Seq::<(Seq<char>, isize)>::empty());
    assert(frame_find(t.last(), name) is None);
    assert(t.drop_last() =~= s);
    assert(scope_assign(t, name, value) =~= scope_push_frame(scope_assign(s, name, value)));
}

proof fn lemma_frame_assign_find(f: Seq<(Seq<char>, isize)>, name: Seq<char>, value: isize)
    ensures
        frame_find(frame_assign(f, name, value), name) == (if frame_find(f, name) is Some {
            Some(value)
        } else {
            None::<isize>
        }),
    decreases f.len(),
{
    if f.len() == 0 {
    } else if f.last().0 == name {
        assert(frame_assign(f, name, value).last() == (name, value));
    } else {
        lemma_frame_assign_find(f.drop_last(), name, value);
        let a = frame_assign(f.drop_last(), name, value).push(f.last());
        assert(a.drop_last() =~= frame_assign(f.drop_last(), name, value));
    }
}

proof fn lemma_frame_assign_find_other(
    f: Seq<(Seq<char>, isize)>,
    name: Seq<char>,
    value: isize,
    other: Seq<char>,
)
    requires
        other != name,
    ensures
        frame_find(frame_assign(f, name, value), other) == frame_find(f, other),
    decreases f.len(),
{
    if f.len() == 0 {
    } else if f.last().0 == name {
        let a = f.drop_last().push((name, value));
        assert(a.drop_last() =~= f.drop_last());
    } else {
        lemma_frame_assign_find_other(f.drop_last(), name, value, other);
        let a = frame_assign(f.drop_last(), name, value).push(f.last());
        assert(a.drop_last() =~= frame_assign(f.drop_last(), name, value));
    }
}

/// What assignment does to lookup: the assigned name reads the new value
/// wherever it was bound (and stays unbound where it was unbound).
pub proof fn lemma_assign_find(s: ScopeView, name: Seq<char>, value: isize)
    ensures
        scope_find(scope_assign(s, name, value), name) == (if scope_find(s, name) is Some {
            Some(value)
        } else {
            None::<isize>
        }),
    decreases s.len(),
{
    if s.len() == 0 {
    } else if frame_find(s.last(), name) is Some {
        lemma_frame_assign_find(s.last(), name, value);
        let a = s.drop_last().push(frame_assign(s.last(), name, value));
        assert(a.drop_last() =~= s.drop_last());
    } else {
        lemma_assign_find(s.drop_last(), name, value);
        lemma_frame_assign_find(s.last(), name, value);
        let a = scope_assign(s.drop_last(), name, value).push(s.last());
        assert(a.drop_last() =~= scope_assign(s.drop_last(), name, value));
    }
}

/// Assignment never adds or removes a name in a frame.
proof fn lemma_frame_assign_same_names(
    f: Seq<(Seq<char>, isize)>,
    name: Seq<char>,
    value: isize,
    other: Seq<char>,
)
    ensures
        frame_find(frame_assign(f, name, value), other) is Some <==> frame_find(f, other) is Some,
{
    if other == name {
        lemma_frame_assign_find(f, name, value);
    } else {
        lemma_frame_assign_find_other(f, name, value, other);
    }
}

/// Assignment keeps every base-frame name bound (or unbound) as it was.
pub proof fn lemma_assign_preserves_base(
    s: ScopeView,
    name: Seq<char>,
    value: isize,
    other: Seq<char>,
)
    requires
        s.len() >= 1,
    ensures
        frame_find(scope_assign(s, name, value)[0], other) is Some <==> frame_find(
            s[0],
            other,
        ) is Some,
    decreases s.len(),
{
    lemma_scope_assign_len(s, name, value);
    if frame_find(s.last(), name) is Some {
        let a = s.drop_last().push(frame_assign(s.last(), name, value));
        if s.len() == 1 {
            assert(a[0] == frame_assign(s[0], name, value));
            lemma_frame_assign_same_names(s[0], name, value, other);
        } else {
            assert(a[0] == s[0]);
        }
    } else {
        if s.len() == 1 {
            assert(scope_assign(s.drop_last(), name, value) =~= Seq::empty());
            assert(scope_assign(s, name, value)[0] == s.last());
        } else {
            lemma_assign_preserves_base(s.drop_last(), name, value, other);
            lemma_scope_assign_len(s.drop_last(), name, value);
            assert(scope_assign(s, name, value)[0] == scope_assign(
                s.drop_last(),
                name,
                value,
            )[0]);
            assert(s.drop_last()[0] == s[0]);
        }
    }
}

/// A new innermost binding keeps every base-frame name bound.
pub proof fn lemma_declare_preserves_base(
    s: ScopeView,
    name: Seq<char>,
    value: isize,
    other: Seq<char>,
)
    requires
        s.len() >= 1,
        frame_find(s[0], other) is Some,
    ensures
        frame_find(scope_declare(s, name, value)[0], other) is Some,
{
    let d = scope_declare(s, name, value);
    if s.len() == 1 {
        assert(d[0] == s[0].push((name, value)));
        assert(s[0].push((name, value)).drop_last() =~= s[0]);
    } else {
        assert(d[0] == s[0]);
    }
}

/// A name bound in the base frame is visible through the whole scope,
/// whatever the inner frames hold.
pub proof fn lemma_base_bound_found(s: ScopeView, name: Seq<char>)
    requires
        s.len() >= 1,
        frame_find(s[0], name) is Some,
    ensures
        scope_find(s, name) is Some,
    decreases s.len(),
{
    if frame_find(s.last(), name) is Some {
    } else {
        assert(s.len() >= 2) by {
            assert(s.len() == 1 ==> s.last() == s[0]);
        }
        assert(s.drop_last()[0] == s[0]);
        lemma_base_bound_found(s.drop_last(), name);
    }
}

/// Assignment to one name changes no other name.
pub proof fn lemma_assign_find_other(
    s: ScopeView,
    name: Seq<char>,
    value: isize,
    other: Seq<char>,
)
    requires
        other != name,
    ensures
        scope_find(scope_assign(s, name, value), other) == scope_find(s, other),
    decreases s.len(),
{
    if s.len() == 0 {
    } else if frame_find(s.last(), name) is Some {
        lemma_frame_assign_find_other(s.last(), name, value, other);
        let a = s.drop_last().push(frame_assign(s.last(), name, value));
        assert(a.drop_last() =~= s.drop_last());
    } else {
        lemma_assign_find_other(s.drop_last(), name, value, other);
        let a = scope_assign(s.drop_last(), name, value).push(s.last());
        assert(a.drop_last() =~= scope_assign(s.drop_last(), name, value));
    }
}

pub open spec fn pair_view(p: (String, isize)) -> (Seq<char>, isize) {
    (p.0@, p.1)
}

pub open spec fn frame_view(f: Seq<(String, isize)>) -> Seq<(Seq<char>, isize)> {
    f.map_values(|p: (String, isize)| pair_view(p))
}

/// Character-by-character string equality, verified against the views.
pub fn str_eq(a: &str, b: &str) -> (r: bool)
    ensures
        r == (a@ == b@),
{
    let alen = a.unicode_len();
    let blen = b.unicode_len();
    if alen != blen {
        return false;
    }
    let mut i: usize = 0;
    while i < alen
        invariant
            alen == a@.len(),
            blen == b@.len(),
            alen == blen,
            i <= alen,
            forall|k: int| 0 <= k < i ==> a@[k] == b@[k],
        decreases alen - i,
    {
        if a.get_char(i) != b.get_char(i) {
            return false;
        }
        i += 1;
    }
    proof {
        assert(a@ =~= b@);
    }
    true
}

/// Stack of variable frames with shadow-on-redeclare semantics.
pub struct Scope {
    frames: Vec<Vec<(String, isize)>>,
}

impl View for Scope {
    type V = ScopeView;

    closed spec fn view(&self) -> ScopeView {
        self.frames@.map_values(|f: Vec<(String, isize)>| frame_view(f@))
    }
}

impl Scope {
    pub fn new() -> (s: Scope)
        ensures
            s@ == scope_init(),
    {
        let frames: Vec<Vec<(String, isize)>> = vec![Vec::new()];
        let s = Scope { frames };
        proof {
            assert(s@ =~~= scope_init());
        }
        s
    }

    /// Bind `var_name` to `value` in the innermost frame, shadowing any
    /// binding of the same name in this or an enclosing frame.
    pub fn define_new_scope_var(&mut self, var_name: &str, value: isize)
        requires
            old(self)@.len() >= 1,
        ensures
            final(self)@ == scope_declare(old(self)@, var_name@, value),
    {
        let mut current = self.frames.pop().unwrap();
        current.push((var_name.to_owned(), value));
        self.frames.push(current);
        proof {
            assert(final(self)@ =~= scope_declare(old(self)@, var_name@, value)) by {
                assert(final(self)@.len() == old(self)@.len());
                assert(forall|k: int|
                    0 <= k < old(self)@.len() - 1 ==> final(self)@[k] == old(self)@[k]);
                assert(final(self)@.last() =~= old(self)@.last().push((var_name@, value)));
            }
        }
    }

    /// Update the innermost live binding of `var_name`, searching outward;
    /// report whether any binding existed.  Never creates a binding.
    #[verifier::rlimit(60)]
    pub fn set_scope_var(&mut self, var_name: &str, value: isize) -> (found: bool)
        ensures
            final(self)@ == scope_assign(old(self)@, var_name@, value),
            found == (scope_find(old(self)@, var_name@) is Some),
    {
        let ghost s = self@;
        let ghost name = var_name@;
        let mut fi: usize = self.frames.len();
        proof {
            assert(s.take(fi as int) =~= s);
            assert(s.skip(fi as int) =~= Seq::empty());
            assert(scope_assign(s, name, value) + s.skip(fi as int) =~= scope_assign(
                s,
                name,
                value,
            ));
        }
        while fi > 0
            invariant
                self == old(self),
                s == self@,
                name == var_name@,
                fi <= self.frames.len(),
                self.frames.len() == s.len(),
                scope_find(s, name) == scope_find(s.take(fi as int), name),
                scope_assign(s, name, value) =~= scope_assign(s.take(fi as int), name, value)
                    + s.skip(fi as int),
            decreases fi,
        {
            fi -= 1;
            let ghost fv = s[fi as int];
            proof {
                assert(s.take(fi + 1).last() =~= fv);
                assert(s.take(fi + 1).drop_last() =~= s.take(fi as int));
            }
            // scan the frame from its end for the live binding
            let frame_len = self.frames[fi].len();
            let mut j: usize = frame_len;
            let mut hit = false;
            proof {
                assert(fv.len() == frame_len);
                assert(fv.take(j as int) =~= fv);
                assert(fv.skip(j as int) =~= Seq::empty());
                assert(frame_assign(fv, name, value) + fv.skip(j as int) =~= frame_assign(
                    fv,
                    name,
                    value,
                ));
            }
            while j > 0 && !hit
                invariant
                    self == old(self),
                    s == self@,
                    name == var_name@,
                    fi < self.frames.len(),
                    self.frames.len() == s.len(),
                    fv == s[fi as int],
                    fv == frame_view(self.frames@[fi as int]@),
                    frame_len == self.frames@[fi as int]@.len(),
                    j <= frame_len,
                    if hit {
                        j < frame_len && fv[j as int].0 == name && frame_find(fv, name)
                            == Some(fv[j as int].1) && frame_assign(fv, name, value)
                            =~= fv.update(j as int, (name, value))
                    } else {
                        frame_find(fv, name) == frame_find(fv.take(j as int), name)
                            && frame_assign(fv, name, value) =~= frame_assign(
                            fv.take(j as int),
                            name,
                            value,
                        ) + fv.skip(j as int)
                    },
                decreases j + (if hit { 0int } else { 1int }),
            {
                j -= 1;
                proof {
                    assert(fv.take(j + 1).last() == fv[j as int]);
                    assert(fv.take(j + 1).drop_last() =~= fv.take(j as int));
                }
                if str_eq(self.frames[fi][j].0.as_str(), var_name) {
                    hit = true;
                    proof {
                        assert(frame_find(fv, name) == Some(fv[j as int].1));
                        assert(frame_assign(fv.take(j + 1), name, value) =~= fv.take(j as int).push(
                            (name, value),
                        ));
                        assert(frame_assign(fv, name, value) =~= fv.update(j as int, (name, value)));
                    }
                }
            }
            if hit {
                // the innermost frame binding `var_name` has been found:
                // update it in place
                proof {
                    assert(frame_find(s.take(fi + 1).last(), name) is Some);
                    assert(scope_find(s, name) is Some);
                    assert(scope_assign(s, name, value) =~= s.take(fi as int).push(
                        frame_assign(fv, name, value),
                    ) + s.skip(fi + 1));
                }
                let frame_ref = &mut self.frames[fi];
                let pair = frame_ref.remove(j);
                frame_ref.insert(j, (pair.0, value));
                proof {
                    assert(self.frames@[fi as int]@ =~= old(self).frames@[fi as int]@.update(
                        j as int,
                        (old(self).frames@[fi as int]@[j as int].0, value),
                    ));
                    assert(frame_view(self.frames@[fi as int]@) =~= fv.update(
                        j as int,
                        (name, value),
                    ));
                    assert(self@ =~= scope_assign(s, name, value));
                }
                return true;
            }
            proof {
                assert(frame_find(fv, name) is None);
                assert(scope_find(s.take(fi + 1), name) == scope_find(s.take(fi as int), name));
                assert(frame_assign(fv, name, value) =~= fv);
                assert(scope_assign(s.take(fi + 1), name, value) =~= scope_assign(
                    s.take(fi as int),
                    name,
                    value,
                ).push(fv));
                assert(scope_assign(s.take(fi + 1), name, value) + s.skip(fi + 1) =~= scope_assign(
                    s.take(fi as int),
                    name,
                    value,
                ) + s.skip(fi as int));
            }
        }
        proof {
            assert(s.take(0) =~= Seq::empty());
            assert(scope_find(s, name) is None);
            assert(scope_assign(s, name, value) =~= s);
        }
        false
    }

    /// Value of `var_name`'s innermost live binding, searching outward.
    pub fn get_var_value(&self, var_name: &str) -> (r: Option<isize>)
        ensures
            r == scope_find(self@, var_name@),
    {
        let ghost s = self@;
        let ghost name = var_name@;
        let mut fi: usize = self.frames.len();
        proof {
            assert(s.take(fi as int) =~= s);
        }
        while fi > 0
            invariant
                s == self@,
                name == var_name@,
                fi <= self.frames.len(),
                self.frames.len() == s.len(),
                scope_find(s, name) == scope_find(s.take(fi as int), name),
            decreases fi,
        {
            fi -= 1;
            let ghost fv = s[fi as int];
            proof {
                assert(s.take(fi + 1).last() =~= fv);
                assert(s.take(fi + 1).drop_last() =~= s.take(fi as int));
            }
            let frame_len = self.frames[fi].len();
            let mut j: usize = frame_len;
            proof {
                assert(fv.len() == frame_len);
                assert(fv.take(j as int) =~= fv);
            }
            while j > 0
                invariant
                    s == self@,
                    name == var_name@,
                    fi < self.frames.len(),
                    self.frames.len() == s.len(),
                    fv == s[fi as int],
                    fv == frame_view(self.frames@[fi as int]@),
                    frame_len == self.frames@[fi as int]@.len(),
                    j <= frame_len,
                    frame_find(fv, name) == frame_find(fv.take(j as int), name),
                    scope_find(s, name) == scope_find(s.take(fi + 1), name),
                decreases j,
            {
                j -= 1;
                proof {
                    assert(fv.take(j + 1).last() == fv[j as int]);
                    assert(fv.take(j + 1).drop_last() =~= fv.take(j as int));
                }
                if str_eq(self.frames[fi][j].0.as_str(), var_name) {
                    proof {
                        assert(frame_find(fv, name) == Some(fv[j as int].1));
                        assert(scope_find(s.take(fi + 1), name) == Some(fv[j as int].1));
                    }
                    return Some(self.frames[fi][j].1);
                }
            }
            proof {
                assert(frame_find(fv, name) is None);
            }
        }
        proof {
            assert(s.take(0) =~= Seq::empty());
        }
        None
    }

    /// Discard the innermost frame (a no-op on an empty stack).
    pub fn drop(&mut self)
        ensures
            final(self)@ == scope_pop_frame(old(self)@),
    {
        if self.frames.len() > 0 {
            self.frames.pop();
            proof {
                assert(final(self)@ =~= old(self)@.drop_last());
            }
        }
    }

    /// Open a fresh, empty innermost frame.
    pub fn add(&mut self)
        ensures
            final(self)@ == scope_push_frame(old(self)@),
    {
        self.frames.push(Vec::new());
        proof {
            assert(final(self)@ =~~= scope_push_frame(old(self)@));
        }
    }
}

} // verus!
