//! Linking of compiled stages into an executable program.
//!
//! [`ShaderProgram::new`] consumes its stage set: the driver-level stage
//! objects are transient once attached, so every stage handle is released
//! whether or not the link succeeds.  A program value exists only after a
//! successful link, so an unlinked or failed-link program can never be
//! activated.  Attribute lookup is a query against the linked program's
//! vertex inputs, uniform lookup one against the stages' merged uniform
//! declarations; locations are positions in those tables.

use vstd::prelude::*;

use crate::context::{lemma_live_below_cursor, same_bindings, Context};
use crate::glsl::{decls_view, GlslType, VarDecl};
use crate::shader::{Shader, StageKind};
use crate::text::{chars_eq, chars_eq_str, chars_of, copy_chars, extend_chars};

verus! {

/// A stage set the linker rejected; `log` is the linker's diagnostic,
/// never empty.
#[derive(Debug)]
pub struct LinkError {
    pub log: Vec<char>,
}

/// A named vertex input absent from a linked program: a configuration
/// error, not a transient one.
#[derive(Clone, Copy, PartialEq, Eq, Structural, Debug)]
pub struct AttributeNotFoundError;

/// Whether some stage has kind `k`.
pub open spec fn has_kind(stages: Seq<Shader>, k: StageKind) -> bool {
    exists|i: int| 0 <= i < stages.len() && #[trigger] stages[i].spec_kind() == k
}

/// No two stages share a kind.
pub open spec fn distinct_kinds(stages: Seq<Shader>) -> bool {
    forall|i: int, j: int|
        0 <= i < j < stages.len() ==> #[trigger] stages[i].spec_kind() != #[trigger] stages[
            j
        ].spec_kind()
}

/// Index of the first stage of kind `k`, or `-1` when there is none.
pub open spec fn kind_index(stages: Seq<Shader>, k: StageKind) -> int
    decreases stages.len(),
{
    if stages.len() == 0 {
        -1
    } else if stages[0].spec_kind() == k {
        0
    } else {
        let rest = kind_index(stages.skip(1), k);
        if rest < 0 {
            -1
        } else {
            1 + rest
        }
    }
}

/// When `stages[i]` is the first stage of kind `k`, `kind_index` picks it.
pub proof fn lemma_kind_index_at(stages: Seq<Shader>, k: StageKind, i: int)
    requires
        0 <= i < stages.len(),
        stages[i].spec_kind() == k,
        forall|m: int| 0 <= m < i ==> #[trigger] stages[m].spec_kind() != k,
    ensures
        kind_index(stages, k) == i,
        has_kind(stages, k),
    decreases stages.len(),
{
    if i == 0 {
    } else {
        lemma_kind_index_at(stages.skip(1), k, i - 1);
        assert(forall|m: int| 0 <= m < i - 1 ==> #[trigger] stages.skip(1)[m] == stages[m + 1]);
    }
}

/// Whether the vertex-stage outputs carry a declaration equal to `d`.
pub open spec fn matched(vouts: Seq<(GlslType, Seq<char>)>, d: (GlslType, Seq<char>)) -> bool {
    exists|j: int| 0 <= j < vouts.len() && vouts[j] == d
}

/// Every fragment-stage input is matched, by name and type, by some
/// vertex-stage output.
pub open spec fn iface_match(
    vouts: Seq<(GlslType, Seq<char>)>,
    fins: Seq<(GlslType, Seq<char>)>,
) -> bool {
    forall|i: int| 0 <= i < fins.len() ==> matched(vouts, #[trigger] fins[i])
}

/// The name of the first fragment-stage input no vertex-stage output
/// matches.
pub open spec fn first_unmatched(
    vouts: Seq<(GlslType, Seq<char>)>,
    fins: Seq<(GlslType, Seq<char>)>,
) -> Seq<char>
    decreases fins.len(),
{
    if fins.len() == 0 {
        Seq::empty()
    } else if !matched(vouts, fins[0]) {
        fins[0].1
    } else {
        first_unmatched(vouts, fins.skip(1))
    }
}

/// When `fins[i]` is the first unmatched input, `first_unmatched` names it.
pub proof fn lemma_first_unmatched_at(
    vouts: Seq<(GlslType, Seq<char>)>,
    fins: Seq<(GlslType, Seq<char>)>,
    i: int,
)
    requires
        0 <= i < fins.len(),
        !matched(vouts, fins[i]),
        forall|m: int| 0 <= m < i ==> matched(vouts, #[trigger] fins[m]),
    ensures
        first_unmatched(vouts, fins) == fins[i].1,
    decreases fins.len(),
{
    if i == 0 {
    } else {
        lemma_first_unmatched_at(vouts, fins.skip(1), i - 1);
        assert(forall|m: int| 0 <= m < i - 1 ==> #[trigger] fins.skip(1)[m] == fins[m + 1]);
    }
}

/// The linker accepts a stage set exactly when kinds are distinct, a vertex
/// and a fragment stage are both present, and the stage interfaces agree.
pub open spec fn link_ok(stages: Seq<Shader>) -> bool {
    &&& distinct_kinds(stages)
    &&& has_kind(stages, StageKind::Vertex)
    &&& has_kind(stages, StageKind::Fragment)
    &&& iface_match(
        stages[kind_index(stages, StageKind::Vertex)].spec_outputs(),
        stages[kind_index(stages, StageKind::Fragment)].spec_inputs(),
    )
}

/// The linker's diagnostic for a rejected stage set: the first check that
/// fails, in a fixed order.
pub open spec fn link_log(stages: Seq<Shader>) -> Seq<char> {
    if !distinct_kinds(stages) {
        "duplicate shader stage kind"@
    } else if !has_kind(stages, StageKind::Vertex) {
        "program has no vertex stage"@
    } else if !has_kind(stages, StageKind::Fragment) {
        "program has no fragment stage"@
    } else {
        "unmatched fragment stage input "@ + first_unmatched(
            stages[kind_index(stages, StageKind::Vertex)].spec_outputs(),
            stages[kind_index(stages, StageKind::Fragment)].spec_inputs(),
        )
    }
}

/// Whether `x` is the handle of one of the stages.
pub open spec fn stage_handles(stages: Seq<Shader>, x: u32) -> bool {
    exists|i: int| 0 <= i < stages.len() && #[trigger] stages[i].spec_handle() == x
}

/// Finds the first stage of kind `k`.
fn find_kind(stages: &Vec<Shader>, k: StageKind) -> (r: Option<usize>)
    ensures
        r matches Some(i) ==> i < stages@.len() && kind_index(stages@, k) == i as int
            && stages@[i as int].spec_kind() == k,
        r is None ==> !has_kind(stages@, k),
{
    let n = stages.len();
    let mut i: usize = 0;
    while i < n
        invariant
            n == stages@.len(),
            i <= n,
            forall|m: int| 0 <= m < i ==> #[trigger] stages@[m].spec_kind() != k,
        decreases n - i,
    {
        if stages[i].kind() == k {
            proof {
                lemma_kind_index_at(stages@, k, i as int);
            }
            return Some(i);
        }
        i += 1;
    }
    None
}

/// Whether the vertex outputs carry a declaration equal to `(ty, name)`.
fn find_match(vouts: &Vec<VarDecl>, ty: GlslType, name: &Vec<char>) -> (r: bool)
    ensures
        r == matched(decls_view(vouts@), (ty, name@)),
{
    let n = vouts.len();
    let mut j: usize = 0;
    while j < n
        invariant
            n == vouts@.len(),
            j <= n,
            forall|m: int| 0 <= m < j ==> #[trigger] decls_view(vouts@)[m] != (ty, name@),
        decreases n - j,
    {
        proof {
            assert(decls_view(vouts@)[j as int] == (vouts@[j as int].ty, vouts@[j as int].name@));
        }
        if vouts[j].ty == ty && chars_eq(&vouts[j].name, name) {
            return true;
        }
        j += 1;
    }
    proof {
        if matched(decls_view(vouts@), (ty, name@)) {
            let w = choose|w: int|
                0 <= w < decls_view(vouts@).len() && decls_view(vouts@)[w] == (ty, name@);
            assert(decls_view(vouts@)[w] == (ty, name@));
        }
    }
    false
}

/// Copies a declaration list.
fn copy_decls(src: &Vec<VarDecl>) -> (r: Vec<VarDecl>)
    ensures
        decls_view(r@) == decls_view(src@),
{
    let n = src.len();
    let mut r: Vec<VarDecl> = Vec::new();
    let mut i: usize = 0;
    while i < n
        invariant
            n == src@.len(),
            i <= n,
            r@.len() == i,
            forall|k: int|
                0 <= k < i ==> #[trigger] decls_view(r@)[k] == decls_view(src@)[k],
        decreases n - i,
    {
        let name = copy_chars(&src[i].name);
        let ty = src[i].ty;
        let ghost prev = r@;
        r.push(VarDecl { name, ty });
        proof {
            assert forall|k: int| 0 <= k < i + 1 implies #[trigger] decls_view(r@)[k]
                == decls_view(src@)[k] by {
                assert(decls_view(r@)[k] == (r@[k].ty, r@[k].name@));
                assert(decls_view(src@)[k] == (src@[k].ty, src@[k].name@));
                if k < i {
                    assert(r@[k] == prev[k]);
                    assert(decls_view(prev)[k] == (prev[k].ty, prev[k].name@));
                } else {
                    assert(r@[k].name@ == src@[k].name@);
                }
            }
        }
        i += 1;
    }
    proof {
        assert(decls_view(r@) =~= decls_view(src@));
    }
    r
}

/// Finds the first declaration named `name` in a declaration list.
fn find_decl(decls: &Vec<VarDecl>, name: &str) -> (r: Option<usize>)
    ensures
        r is Some <==> has_decl(decls_view(decls@), name@),
        r matches Some(l) ==> l as int == decl_index(decls_view(decls@), name@),
{
    let n = decls.len();
    let mut i: usize = 0;
    while i < n
        invariant
            n == decls@.len(),
            i <= n,
            forall|m: int| 0 <= m < i ==> (#[trigger] decls_view(decls@)[m]).1 != name@,
        decreases n - i,
    {
        proof {
            assert(decls_view(decls@)[i as int] == (decls@[i as int].ty, decls@[i as int].name@));
        }
        if chars_eq_str(&decls[i].name, name) {
            proof {
                lemma_decl_index_at(decls_view(decls@), name@, i as int);
            }
            return Some(i);
        }
        i += 1;
    }
    proof {
        if has_decl(decls_view(decls@), name@) {
            let w = choose|w: int|
                0 <= w < decls_view(decls@).len() && (#[trigger] decls_view(decls@)[w]).1 == name@;
            assert(decls_view(decls@)[w].1 == name@);
        }
    }
    None
}

/// Runs every link-time check without touching the context: the vertex
/// inputs and merged uniforms of a set the linker accepts, or the
/// diagnostic of [`link_log`].
fn compute_link(stages: &Vec<Shader>) -> (r: Result<(Vec<VarDecl>, Vec<VarDecl>), Vec<char>>)
    ensures
        r is Ok <==> link_ok(stages@),
        r matches Ok(tables) ==> decls_view(tables.0@) == stages@[kind_index(
            stages@,
            StageKind::Vertex,
        )].spec_inputs() && decls_view(tables.1@) == stages@[kind_index(
            stages@,
            StageKind::Vertex,
        )].spec_uniforms() + stages@[kind_index(
            stages@,
            StageKind::Fragment,
        )].spec_uniforms(),
        r matches Err(log) ==> log@ == link_log(stages@) && log@.len() >= 1,
{
    let n = stages.len();
    let mut i: usize = 0;
    while i < n
        invariant
            n == stages@.len(),
            i <= n,
            forall|a: int, b: int|
                0 <= a < b < stages@.len() && b < i ==> #[trigger] stages@[a].spec_kind()
                    != #[trigger] stages@[b].spec_kind(),
        decreases n - i,
    {
        let mut j: usize = 0;
        while j < i
            invariant
                i < n,
                n == stages@.len(),
                j <= i,
                forall|m: int|
                    0 <= m < j ==> #[trigger] stages@[m].spec_kind() != stages@[
                        i as int
                    ].spec_kind(),
            decreases i - j,
        {
            if stages[j].kind() == stages[i].kind() {
                proof {
                    reveal_strlit("duplicate shader stage kind");
                }
                return Err(chars_of("duplicate shader stage kind"));
            }
            j += 1;
        }
        i += 1;
    }
    let vi = match find_kind(stages, StageKind::Vertex) {
        Some(vi) => vi,
        None => {
            proof {
                reveal_strlit("program has no vertex stage");
            }
            return Err(chars_of("program has no vertex stage"));
        },
    };
    let fi = match find_kind(stages, StageKind::Fragment) {
        Some(fi) => fi,
        None => {
            proof {
                reveal_strlit("program has no fragment stage");
            }
            return Err(chars_of("program has no fragment stage"));
        },
    };
    let vouts = stages[vi].outputs();
    let fins = stages[fi].inputs();
    let ghost vo = stages@[vi as int].spec_outputs();
    let ghost fv = stages@[fi as int].spec_inputs();
    let m = fins.len();
    let mut t: usize = 0;
    while t < m
        invariant
            m == fins@.len(),
            t <= m,
            vi < stages@.len(),
            fi < stages@.len(),
            distinct_kinds(stages@),
            has_kind(stages@, StageKind::Vertex),
            has_kind(stages@, StageKind::Fragment),
            kind_index(stages@, StageKind::Vertex) == vi as int,
            kind_index(stages@, StageKind::Fragment) == fi as int,
            vo == stages@[vi as int].spec_outputs(),
            fv == stages@[fi as int].spec_inputs(),
            decls_view(vouts@) == vo,
            decls_view(fins@) == fv,
            forall|k: int| 0 <= k < t ==> matched(vo, #[trigger] fv[k]),
        decreases m - t,
    {
        proof {
            assert(fv[t as int] == (fins@[t as int].ty, fins@[t as int].name@));
        }
        if !find_match(vouts, fins[t].ty, &fins[t].name) {
            proof {
                lemma_first_unmatched_at(vo, fv, t as int);
                reveal_strlit("unmatched fragment stage input ");
            }
            let mut log = chars_of("unmatched fragment stage input ");
            extend_chars(&mut log, &fins[t].name);
            return Err(log);
        }
        t += 1;
    }
    let attrs = copy_decls(stages[vi].inputs());
    let mut uniforms = copy_decls(stages[vi].uniforms());
    let ghost ua = uniforms@;
    let ghost vu = decls_view(uniforms@);
    let mut fragment_uniforms = copy_decls(stages[fi].uniforms());
    let ghost fa = fragment_uniforms@;
    let ghost fu = decls_view(fragment_uniforms@);
    uniforms.append(&mut fragment_uniforms);
    proof {
        assert forall|k: int| 0 <= k < uniforms@.len() implies #[trigger] decls_view(uniforms@)[k]
            == (vu + fu)[k] by {
            assert(decls_view(uniforms@)[k] == (uniforms@[k].ty, uniforms@[k].name@));
            if k < ua.len() {
                assert(uniforms@[k] == ua[k]);
                assert(decls_view(ua)[k] == (ua[k].ty, ua[k].name@));
            } else {
                assert(uniforms@[k] == fa[k - ua.len()]);
                assert(decls_view(fa)[k - ua.len()] == (
                    fa[k - ua.len()].ty,
                    fa[k - ua.len()].name@,
                ));
            }
        }
        assert(decls_view(uniforms@) =~~= vu + fu);
    }
    Ok((attrs, uniforms))
}

/// A linked, executable program.  It owns its program handle; its attribute
/// table is the linked vertex stage's input list and its uniform table the
/// stages' uniform lists, vertex stage first — a name's location being its
/// position in the table.
#[derive(Debug)]
pub struct ShaderProgram {
    handle: u32,
    attributes: Vec<VarDecl>,
    uniforms: Vec<VarDecl>,
}

/// Whether some declaration in the list is named `name`.
pub open spec fn has_decl(attrs: Seq<(GlslType, Seq<char>)>, name: Seq<char>) -> bool {
    exists|i: int| 0 <= i < attrs.len() && (#[trigger] attrs[i]).1 == name
}

/// Location of the name in a declaration list: the position of its first
/// declaration, or `-1` when there is none.
pub open spec fn decl_index(attrs: Seq<(GlslType, Seq<char>)>, name: Seq<char>) -> int
    decreases attrs.len(),
{
    if attrs.len() == 0 {
        -1
    } else if attrs[0].1 == name {
        0
    } else {
        let rest = decl_index(attrs.skip(1), name);
        if rest < 0 {
            -1
        } else {
            1 + rest
        }
    }
}

/// A present name's location is a real position holding that name.
pub proof fn lemma_decl_index_props(attrs: Seq<(GlslType, Seq<char>)>, name: Seq<char>)
    requires
        has_decl(attrs, name),
    ensures
        0 <= decl_index(attrs, name) < attrs.len(),
        attrs[decl_index(attrs, name)].1 == name,
    decreases attrs.len(),
{
    if attrs[0].1 == name {
    } else {
        assert forall|i: int| 0 <= i < attrs.skip(1).len() implies attrs.skip(1)[i] == attrs[i + 1]
            by {}
        let w = choose|w: int| 0 <= w < attrs.len() && (#[trigger] attrs[w]).1 == name;
        assert(attrs.skip(1)[w - 1] == attrs[w]);
        lemma_decl_index_props(attrs.skip(1), name);
    }
}

/// Two different names never share a location in one declaration list.
pub proof fn lemma_locations_distinct(
    attrs: Seq<(GlslType, Seq<char>)>,
    a: Seq<char>,
    b: Seq<char>,
)
    requires
        has_decl(attrs, a),
        has_decl(attrs, b),
        a != b,
    ensures
        decl_index(attrs, a) != decl_index(attrs, b),
{
    lemma_decl_index_props(attrs, a);
    lemma_decl_index_props(attrs, b);
}

/// When `attrs[i]` is the first declaration named `name`, it has location `i`.
pub proof fn lemma_decl_index_at(attrs: Seq<(GlslType, Seq<char>)>, name: Seq<char>, i: int)
    requires
        0 <= i < attrs.len(),
        attrs[i].1 == name,
        forall|m: int| 0 <= m < i ==> (#[trigger] attrs[m]).1 != name,
    ensures
        decl_index(attrs, name) == i,
        has_decl(attrs, name),
    decreases attrs.len(),
{
    if i == 0 {
    } else {
        lemma_decl_index_at(attrs.skip(1), name, i - 1);
        assert(forall|m: int| 0 <= m < i - 1 ==> #[trigger] attrs.skip(1)[m] == attrs[m + 1]);
    }
}

impl ShaderProgram {
    /// The linked-program handle this wrapper owns.
    pub closed spec fn spec_handle(&self) -> u32 {
        self.handle
    }

    /// The program's vertex inputs, in declaration order; an attribute's
    /// location is its position here.
    pub closed spec fn spec_attributes(&self) -> Seq<(GlslType, Seq<char>)> {
        decls_view(self.attributes@)
    }

    /// The program's uniforms: the vertex stage's, then the fragment
    /// stage's; a uniform's location is its first position here.
    pub closed spec fn spec_uniforms(&self) -> Seq<(GlslType, Seq<char>)> {
        decls_view(self.uniforms@)
    }

    /// A program is usable exactly while its handle is live.
    pub open spec fn wf(&self, ctx: Context) -> bool {
        ctx.is_live(self.spec_handle())
    }

    /// Links a non-empty stage set into a program, consuming every stage:
    /// each stage handle is released whether or not the link succeeds.
    ///
    /// Succeeds if and only if the set satisfies [`link_ok`]; the program
    /// then owns a fresh live handle and its attribute table is the vertex
    /// stage's input list.  On failure the diagnostic of [`link_log`] comes
    /// back and no program object outlives the call.
    pub fn new(ctx: &mut Context, stages: Vec<Shader>) -> (r: Result<ShaderProgram, LinkError>)
        requires
            old(ctx).wf(),
            old(ctx).can_alloc(),
            stages@.len() >= 1,
            forall|i: int| 0 <= i < stages@.len() ==> (#[trigger] stages@[i]).wf(*old(ctx)),
            forall|i: int, j: int|
                0 <= i < j < stages@.len() ==> (#[trigger] stages@[i]).spec_handle() != (
                #[trigger] stages@[j]).spec_handle(),
        ensures
            final(ctx).wf(),
            same_bindings(*old(ctx), *final(ctx)),
            forall|i: int|
                0 <= i < stages@.len() ==> !final(ctx).is_live(
                    (#[trigger] stages@[i]).spec_handle(),
                ),
            r is Ok <==> link_ok(stages@),
            r matches Ok(p) ==> {
                &&& p.wf(*final(ctx))
                &&& !old(ctx).is_live(p.spec_handle())
                &&& forall|x: u32|
                    x != p.spec_handle() && !stage_handles(stages@, x) ==> (final(ctx).is_live(x)
                        <==> old(ctx).is_live(x))
                &&& final(ctx).spec_next_handle() == old(ctx).spec_next_handle() + 1
                &&& p.spec_attributes() == stages@[kind_index(
                    stages@,
                    StageKind::Vertex,
                )].spec_inputs()
                &&& p.spec_uniforms() == stages@[kind_index(
                    stages@,
                    StageKind::Vertex,
                )].spec_uniforms() + stages@[kind_index(
                    stages@,
                    StageKind::Fragment,
                )].spec_uniforms()
            },
            r matches Err(e) ==> {
                &&& e.log@ == link_log(stages@)
                &&& e.log@.len() >= 1
                &&& forall|x: u32|
                    !stage_handles(stages@, x) ==> (final(ctx).is_live(x) <==> old(ctx).is_live(
                        x,
                    ))
                &&& final(ctx).spec_next_handle() == old(ctx).spec_next_handle()
            },
    {
        let verdict = compute_link(&stages);
        let ghost orig = stages@;
        let mut stages = stages;
        while stages.len() > 0
            invariant
                ctx.wf(),
                stages@.len() <= orig.len(),
                stages@ == orig.take(stages@.len() as int),
                same_bindings(*old(ctx), *ctx),
                ctx.spec_next_handle() == old(ctx).spec_next_handle(),
                forall|i: int, j: int|
                    0 <= i < j < orig.len() ==> (#[trigger] orig[i]).spec_handle() != (
                    #[trigger] orig[j]).spec_handle(),
                forall|i: int| 0 <= i < orig.len() ==> (#[trigger] orig[i]).wf(*old(ctx)),
                forall|x: u32|
                    !stage_handles(orig.skip(stages@.len() as int), x) ==> (ctx.is_live(x)
                        <==> old(ctx).is_live(x)),
                forall|i: int|
                    stages@.len() <= i < orig.len() ==> !ctx.is_live(
                        (#[trigger] orig[i]).spec_handle(),
                    ),
            decreases stages.len(),
        {
            let ghost pre_len = stages@.len() as int;
            let sh = stages.pop().unwrap();
            proof {
                assert(orig.take(pre_len)[pre_len - 1] == orig[pre_len - 1]);
                assert(stages@ =~= orig.take(pre_len - 1));
                assert(ctx.is_live(sh.spec_handle())) by {
                    assert(sh == orig[pre_len - 1]);
                    assert(!stage_handles(orig.skip(pre_len), sh.spec_handle())) by {
                        if stage_handles(orig.skip(pre_len), sh.spec_handle()) {
                            let w = choose|w: int|
                                0 <= w < orig.skip(pre_len).len() && (#[trigger] orig.skip(
                                    pre_len,
                                )[w]).spec_handle() == sh.spec_handle();
                            assert(orig[w + pre_len].spec_handle() == sh.spec_handle());
                        }
                    }
                }
            }
            sh.destroy(ctx);
            proof {
                let k = pre_len - 1;
                assert forall|x: u32| !stage_handles(orig.skip(k), x) implies (ctx.is_live(x)
                    <==> old(ctx).is_live(x)) by {
                    assert(orig.skip(k)[0] == orig[k]);
                    assert(x != orig[k].spec_handle());
                    assert(!stage_handles(orig.skip(k + 1), x)) by {
                        if stage_handles(orig.skip(k + 1), x) {
                            let w = choose|w: int|
                                0 <= w < orig.skip(k + 1).len() && (#[trigger] orig.skip(
                                    k + 1,
                                )[w]).spec_handle() == x;
                            assert(orig.skip(k)[w + 1] == orig[w + k + 1]);
                        }
                    }
                }
                assert forall|i: int| k <= i < orig.len() implies !ctx.is_live(
                    (#[trigger] orig[i]).spec_handle(),
                ) by {
                    if i > k {
                        assert(orig[i].spec_handle() != orig[k].spec_handle());
                    }
                }
            }
        }
        proof {
            assert(orig.skip(0) =~= orig);
            assert forall|i: int| 0 <= i < orig.len() implies !ctx.is_live(
                (#[trigger] orig[i]).spec_handle(),
            ) by {}
        }
        match verdict {
            Ok((attributes, uniforms)) => {
                proof {
                    assert(!old(ctx).is_live(old(ctx).spec_next_handle())) by {
                        if old(ctx).is_live(old(ctx).spec_next_handle()) {
                            lemma_live_below_cursor(*old(ctx), old(ctx).spec_next_handle());
                        }
                    }
                    assert forall|i: int| 0 <= i < orig.len() implies (
                    #[trigger] orig[i]).spec_handle() != old(ctx).spec_next_handle() by {
                        lemma_live_below_cursor(*old(ctx), orig[i].spec_handle());
                    }
                }
                let handle = ctx.allocate();
                Ok(ShaderProgram { handle, attributes, uniforms })
            },
            Err(log) => Err(LinkError { log }),
        }
    }

    /// The program's handle, as the driver names it.
    pub fn get_id(&self) -> (r: u32)
        ensures
            r == self.spec_handle(),
    {
        self.handle
    }

    /// Makes this program the context's active program for subsequent draw
    /// calls.
    pub fn apply(&self, ctx: &mut Context)
        requires
            old(ctx).wf(),
            self.wf(*old(ctx)),
        ensures
            final(ctx).wf(),
            crate::context::same_live(*old(ctx), *final(ctx)),
            final(ctx).spec_next_handle() == old(ctx).spec_next_handle(),
            final(ctx).spec_active_program() == self.spec_handle(),
            final(ctx).spec_bound_vertex_array() == old(ctx).spec_bound_vertex_array(),
            final(ctx).spec_bound_array_buffer() == old(ctx).spec_bound_array_buffer(),
            final(ctx).spec_bound_element_buffer() == old(ctx).spec_bound_element_buffer(),
    {
        ctx.use_program(self.handle);
    }

    /// Looks up the location of a named vertex input: its declaration
    /// position in the linked vertex stage, or [`AttributeNotFoundError`]
    /// exactly when the program has no input of that name.
    pub fn get_attrib_location(&self, name: &str) -> (r: Result<usize, AttributeNotFoundError>)
        ensures
            r is Ok <==> has_decl(self.spec_attributes(), name@),
            r matches Ok(l) ==> l as int == decl_index(self.spec_attributes(), name@),
    {
        match find_decl(&self.attributes, name) {
            Some(location) => Ok(location),
            None => Err(AttributeNotFoundError),
        }
    }

    /// Looks up the location of a named uniform in the linked stages'
    /// merged table; `None` exactly when no stage declares it.
    pub fn get_uniform_location(&self, name: &str) -> (r: Option<usize>)
        ensures
            r is Some <==> has_decl(self.spec_uniforms(), name@),
            r matches Some(l) ==> l as int == decl_index(self.spec_uniforms(), name@),
    {
        find_decl(&self.uniforms, name)
    }

    /// Destroys the program, releasing its handle exactly once.
    pub fn destroy(self, ctx: &mut Context)
        requires
            old(ctx).wf(),
            self.wf(*old(ctx)),
        ensures
            final(ctx).wf(),
            crate::context::releases(*old(ctx), *final(ctx), self.spec_handle()),
    {
        ctx.release(self.handle);
    }
}

} // verus!
