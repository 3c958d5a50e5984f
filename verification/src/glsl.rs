//! The shading-language model the driver model compiles.
//!
//! A source is a sequence of statements separated by `';'`.  A statement is
//! blank, an input declaration `in <type> <name>`, an output declaration
//! `out <type> <name>`, a uniform declaration `uniform <type> <name>`, or a
//! pass-through assignment `<name> = <name>`.  Compilation accepts a source
//! exactly when it has at least one non-blank statement and every statement
//! parses; the declarations form the stage's interface, used for attribute
//! and uniform lookup and for link-time interface matching.

use vstd::prelude::*;

use crate::text::chars_eq_str;

verus! {

/// The scalar and vector types a declaration may use.
#[derive(Clone, Copy, PartialEq, Eq, Structural, Debug)]
pub enum GlslType {
    Float,
    Vec2,
    Vec3,
    Vec4,
    Mat4,
}

impl GlslType {
    /// Number of 32-bit numeric components a value of this type occupies.
    pub open spec fn spec_components(self) -> u32 {
        match self {
            GlslType::Float => 1,
            GlslType::Vec2 => 2,
            GlslType::Vec3 => 3,
            GlslType::Vec4 => 4,
            GlslType::Mat4 => 16,
        }
    }

    /// Executable twin of [`Self::spec_components`].
    pub fn components(&self) -> (r: u32)
        ensures
            r == self.spec_components(),
    {
        match self {
            GlslType::Float => 1,
            GlslType::Vec2 => 2,
            GlslType::Vec3 => 3,
            GlslType::Vec4 => 4,
            GlslType::Mat4 => 16,
        }
    }
}

/// Whitespace characters of the language.
pub open spec fn is_space(c: char) -> bool {
    c == ' ' || c == '\n' || c == '\t' || c == '\r'
}

/// Characters that may start an identifier.
pub open spec fn is_ident_start(c: char) -> bool {
    ||| 'a' as u32 <= c as u32 && c as u32 <= 'z' as u32
    ||| 'A' as u32 <= c as u32 && c as u32 <= 'Z' as u32
    ||| c == '_'
}

/// Characters that may continue an identifier.
pub open spec fn is_ident_char(c: char) -> bool {
    is_ident_start(c) || ('0' as u32 <= c as u32 && c as u32 <= '9' as u32)
}

/// A non-empty word of identifier characters starting with a letter or `'_'`.
pub open spec fn is_ident(w: Seq<char>) -> bool {
    &&& w.len() >= 1
    &&& is_ident_start(w[0])
    &&& forall|i: int| 0 <= i < w.len() ==> is_ident_char(#[trigger] w[i])
}

/// The statements of a source: the runs of characters between `';'`.
pub open spec fn statements(s: Seq<char>) -> Seq<Seq<char>>
    decreases s.len(),
{
    if s.len() == 0 {
        seq![Seq::<char>::empty()]
    } else if s[0] == ';' {
        seq![Seq::<char>::empty()] + statements(s.skip(1))
    } else {
        let rest = statements(s.skip(1));
        seq![seq![s[0]] + rest[0]] + rest.skip(1)
    }
}

pub proof fn lemma_statements_len(s: Seq<char>)
    ensures
        statements(s).len() >= 1,
    decreases s.len(),
{
    if s.len() > 0 {
        lemma_statements_len(s.skip(1));
    }
}

/// The whitespace-separated words of a statement, in order, blanks dropped.
pub open spec fn words(s: Seq<char>) -> Seq<Seq<char>>
    decreases s.len(),
{
    if s.len() == 0 {
        Seq::<Seq<char>>::empty()
    } else if is_space(s[0]) {
        words(s.skip(1))
    } else if s.len() == 1 || is_space(s[1]) {
        seq![seq![s[0]]] + words(s.skip(1))
    } else {
        let rest = words(s.skip(1));
        seq![seq![s[0]] + rest[0]] + rest.skip(1)
    }
}

pub proof fn lemma_words_nonempty(s: Seq<char>)
    requires
        s.len() > 0,
        !is_space(s[0]),
    ensures
        words(s).len() >= 1,
    decreases s.len(),
{
    if s.len() == 1 || is_space(s[1]) {
    } else {
        lemma_words_nonempty(s.skip(1));
    }
}

/// A statement with any word at all holds at least one character.
pub proof fn lemma_words_need_chars(s: Seq<char>)
    requires
        words(s).len() > 0,
    ensures
        s.len() > 0,
{
}

/// The meaning of one statement.
pub enum StmtKind {
    Blank,
    DeclIn { ty: GlslType, name: Seq<char> },
    DeclOut { ty: GlslType, name: Seq<char> },
    DeclUniform { ty: GlslType, name: Seq<char> },
    Assign,
    Malformed,
}

/// The type a word names, if any.
pub open spec fn type_of_word(w: Seq<char>) -> Option<GlslType> {
    if w == "float"@ {
        Some(GlslType::Float)
    } else if w == "vec2"@ {
        Some(GlslType::Vec2)
    } else if w == "vec3"@ {
        Some(GlslType::Vec3)
    } else if w == "vec4"@ {
        Some(GlslType::Vec4)
    } else if w == "mat4"@ {
        Some(GlslType::Mat4)
    } else {
        None
    }
}

/// Parses one statement.
pub open spec fn stmt_kind(st: Seq<char>) -> StmtKind {
    let ws = words(st);
    if ws.len() == 0 {
        StmtKind::Blank
    } else if ws.len() == 3 && ws[0] == "in"@ && type_of_word(ws[1]) is Some && is_ident(ws[2]) {
        StmtKind::DeclIn { ty: type_of_word(ws[1])->0, name: ws[2] }
    } else if ws.len() == 3 && ws[0] == "out"@ && type_of_word(ws[1]) is Some && is_ident(ws[2]) {
        StmtKind::DeclOut { ty: type_of_word(ws[1])->0, name: ws[2] }
    } else if ws.len() == 3 && ws[0] == "uniform"@ && type_of_word(ws[1]) is Some && is_ident(
        ws[2],
    ) {
        StmtKind::DeclUniform { ty: type_of_word(ws[1])->0, name: ws[2] }
    } else if ws.len() == 3 && is_ident(ws[0]) && ws[1] == "="@ && is_ident(ws[2]) {
        StmtKind::Assign
    } else {
        StmtKind::Malformed
    }
}

/// A source the model compiler accepts: at least one non-blank statement,
/// and every statement parses.
pub open spec fn source_wf(s: Seq<char>) -> bool {
    &&& forall|i: int|
        0 <= i < statements(s).len() ==> !(#[trigger] stmt_kind(statements(s)[i]) is Malformed)
    &&& exists|i: int|
        0 <= i < statements(s).len() && !(#[trigger] stmt_kind(statements(s)[i]) is Blank)
}

/// The declaration one statement contributes to the stage's inputs.
pub open spec fn stmt_input(st: Seq<char>) -> Seq<(GlslType, Seq<char>)> {
    match stmt_kind(st) {
        StmtKind::DeclIn { ty, name } => seq![(ty, name)],
        _ => Seq::empty(),
    }
}

/// The declaration one statement contributes to the stage's outputs.
pub open spec fn stmt_output(st: Seq<char>) -> Seq<(GlslType, Seq<char>)> {
    match stmt_kind(st) {
        StmtKind::DeclOut { ty, name } => seq![(ty, name)],
        _ => Seq::empty(),
    }
}

/// All input declarations of the statements, in declaration order.
pub open spec fn inputs_of(sts: Seq<Seq<char>>) -> Seq<(GlslType, Seq<char>)>
    decreases sts.len(),
{
    if sts.len() == 0 {
        Seq::empty()
    } else {
        inputs_of(sts.drop_last()) + stmt_input(sts.last())
    }
}

/// The declaration one statement contributes to the stage's uniforms.
pub open spec fn stmt_uniform(st: Seq<char>) -> Seq<(GlslType, Seq<char>)> {
    match stmt_kind(st) {
        StmtKind::DeclUniform { ty, name } => seq![(ty, name)],
        _ => Seq::empty(),
    }
}

/// All uniform declarations of the statements, in declaration order.
pub open spec fn uniforms_of(sts: Seq<Seq<char>>) -> Seq<(GlslType, Seq<char>)>
    decreases sts.len(),
{
    if sts.len() == 0 {
        Seq::empty()
    } else {
        uniforms_of(sts.drop_last()) + stmt_uniform(sts.last())
    }
}

pub proof fn lemma_uniforms_of_take_succ(sts: Seq<Seq<char>>, i: int)
    requires
        0 <= i < sts.len(),
    ensures
        uniforms_of(sts.take(i + 1)) == uniforms_of(sts.take(i)) + stmt_uniform(sts[i]),
{
    assert(sts.take(i + 1).drop_last() =~= sts.take(i));
    assert(sts.take(i + 1).last() == sts[i]);
}

/// All output declarations of the statements, in declaration order.
pub open spec fn outputs_of(sts: Seq<Seq<char>>) -> Seq<(GlslType, Seq<char>)>
    decreases sts.len(),
{
    if sts.len() == 0 {
        Seq::empty()
    } else {
        outputs_of(sts.drop_last()) + stmt_output(sts.last())
    }
}

pub proof fn lemma_inputs_of_take_succ(sts: Seq<Seq<char>>, i: int)
    requires
        0 <= i < sts.len(),
    ensures
        inputs_of(sts.take(i + 1)) == inputs_of(sts.take(i)) + stmt_input(sts[i]),
{
    assert(sts.take(i + 1).drop_last() =~= sts.take(i));
    assert(sts.take(i + 1).last() == sts[i]);
}

pub proof fn lemma_outputs_of_take_succ(sts: Seq<Seq<char>>, i: int)
    requires
        0 <= i < sts.len(),
    ensures
        outputs_of(sts.take(i + 1)) == outputs_of(sts.take(i)) + stmt_output(sts[i]),
{
    assert(sts.take(i + 1).drop_last() =~= sts.take(i));
    assert(sts.take(i + 1).last() == sts[i]);
}

/// Whether some statement is malformed.
pub open spec fn has_malformed(sts: Seq<Seq<char>>) -> bool {
    exists|i: int| 0 <= i < sts.len() && #[trigger] stmt_kind(sts[i]) is Malformed
}

/// The first malformed statement, scanning left to right.
pub open spec fn first_malformed(sts: Seq<Seq<char>>) -> Seq<char>
    decreases sts.len(),
{
    if sts.len() == 0 {
        Seq::empty()
    } else if stmt_kind(sts[0]) is Malformed {
        sts[0]
    } else {
        first_malformed(sts.skip(1))
    }
}

/// When `sts[i]` is the first malformed statement, `first_malformed` picks it.
pub proof fn lemma_first_malformed_at(sts: Seq<Seq<char>>, i: int)
    requires
        0 <= i < sts.len(),
        stmt_kind(sts[i]) is Malformed,
        forall|k: int| 0 <= k < i ==> !(#[trigger] stmt_kind(sts[k]) is Malformed),
    ensures
        first_malformed(sts) == sts[i],
        has_malformed(sts),
    decreases sts.len(),
{
    if i == 0 {
    } else {
        lemma_first_malformed_at(sts.skip(1), i - 1);
        assert(forall|k: int|
            0 <= k < i - 1 ==> #[trigger] sts.skip(1)[k] == sts[k + 1]);
    }
}

/// The model compiler's diagnostic for a rejected source: the first
/// malformed statement, or a fixed message when no statement says anything.
pub open spec fn compile_log(s: Seq<char>) -> Seq<char> {
    if has_malformed(statements(s)) {
        first_malformed(statements(s))
    } else {
        "shader source has no statements"@
    }
}

/// The character views of a vector of character vectors.
pub open spec fn views_of(v: Seq<Vec<char>>) -> Seq<Seq<char>> {
    v.map_values(|t: Vec<char>| t@)
}

/// One declared stage variable: a name and its type.
#[derive(Debug)]
pub struct VarDecl {
    pub name: Vec<char>,
    pub ty: GlslType,
}

impl View for VarDecl {
    type V = (GlslType, Seq<char>);

    open spec fn view(&self) -> (GlslType, Seq<char>) {
        (self.ty, self.name@)
    }
}

/// The declaration views of a vector of declarations.
pub open spec fn decls_view(v: Seq<VarDecl>) -> Seq<(GlslType, Seq<char>)> {
    v.map_values(|d: VarDecl| d@)
}

/// The interface a compiled stage exposes: its input and output
/// declarations, in declaration order.
#[derive(Debug)]
pub struct StageInterface {
    pub inputs: Vec<VarDecl>,
    pub outputs: Vec<VarDecl>,
    pub uniforms: Vec<VarDecl>,
}

/// Executable twin of [`is_space`].
pub fn is_space_char(c: char) -> (r: bool)
    ensures
        r == is_space(c),
{
    c == ' ' || c == '\n' || c == '\t' || c == '\r'
}

/// Splits the source tail starting at `i` on `';'`, mirroring [`statements`].
fn split_statements(s: &Vec<char>, i: usize) -> (r: Vec<Vec<char>>)
    requires
        i <= s.len(),
    ensures
        views_of(r@) == statements(s@.skip(i as int)),
        r@.len() >= 1,
    decreases s.len() - i,
{
    proof {
        lemma_statements_len(s@.skip(i as int));
    }
    if i == s.len() {
        let mut r: Vec<Vec<char>> = Vec::new();
        r.push(Vec::new());
        proof {
            assert(s@.skip(i as int) =~= Seq::<char>::empty());
            assert(views_of(r@) =~~= statements(s@.skip(i as int)));
        }
        r
    } else if s[i] == ';' {
        let mut r = split_statements(s, i + 1);
        r.insert(0, Vec::new());
        proof {
            assert(s@.skip(i as int).skip(1) =~= s@.skip(i as int + 1));
            assert(views_of(r@) =~~= statements(s@.skip(i as int)));
        }
        r
    } else {
        let mut r = split_statements(s, i + 1);
        let mut first = r.remove(0);
        first.insert(0, s[i]);
        r.insert(0, first);
        proof {
            assert(s@.skip(i as int).skip(1) =~= s@.skip(i as int + 1));
            assert(views_of(r@) =~~= statements(s@.skip(i as int)));
        }
        r
    }
}

/// Splits the statement tail starting at `i` into words, mirroring [`words`].
fn split_words(s: &Vec<char>, i: usize) -> (r: Vec<Vec<char>>)
    requires
        i <= s.len(),
    ensures
        views_of(r@) == words(s@.skip(i as int)),
    decreases s.len() - i,
{
    if i == s.len() {
        let r: Vec<Vec<char>> = Vec::new();
        proof {
            assert(s@.skip(i as int) =~= Seq::<char>::empty());
            assert(views_of(r@) =~~= words(s@.skip(i as int)));
        }
        r
    } else if is_space_char(s[i]) {
        let r = split_words(s, i + 1);
        proof {
            assert(s@.skip(i as int).skip(1) =~= s@.skip(i as int + 1));
        }
        r
    } else if i + 1 == s.len() || is_space_char(s[i + 1]) {
        let mut r = split_words(s, i + 1);
        let mut first: Vec<char> = Vec::new();
        first.push(s[i]);
        r.insert(0, first);
        proof {
            assert(s@.skip(i as int).skip(1) =~= s@.skip(i as int + 1));
            assert(views_of(r@) =~~= words(s@.skip(i as int)));
        }
        r
    } else {
        let r0 = split_words(s, i + 1);
        proof {
            assert(s@.skip(i as int).skip(1) =~= s@.skip(i as int + 1));
            assert(s@.skip(i as int + 1)[0] == s@[i as int + 1]);
            lemma_words_nonempty(s@.skip(i as int + 1));
        }
        let mut r = r0;
        let mut first = r.remove(0);
        first.insert(0, s[i]);
        r.insert(0, first);
        proof {
            assert(views_of(r@) =~~= words(s@.skip(i as int)));
        }
        r
    }
}

/// Executable twin of [`is_ident_start`].
fn ident_start_char(c: char) -> (r: bool)
    ensures
        r == is_ident_start(c),
{
    let u = c as u32;
    ('a' as u32 <= u && u <= 'z' as u32) || ('A' as u32 <= u && u <= 'Z' as u32) || c == '_'
}

/// Executable twin of [`is_ident_char`].
fn ident_char(c: char) -> (r: bool)
    ensures
        r == is_ident_char(c),
{
    let u = c as u32;
    ident_start_char(c) || ('0' as u32 <= u && u <= '9' as u32)
}

/// Executable twin of [`is_ident`].
fn check_ident(w: &Vec<char>) -> (r: bool)
    ensures
        r == is_ident(w@),
{
    if w.len() == 0 {
        return false;
    }
    if !ident_start_char(w[0]) {
        return false;
    }
    let mut i: usize = 0;
    while i < w.len()
        invariant
            i <= w@.len(),
            w@.len() >= 1,
            is_ident_start(w@[0]),
            forall|k: int| 0 <= k < i ==> is_ident_char(#[trigger] w@[k]),
        decreases w.len() - i,
    {
        if !ident_char(w[i]) {
            proof {
                assert(!is_ident_char(w@[i as int]));
            }
            return false;
        }
        i += 1;
    }
    true
}

/// Executable twin of [`type_of_word`].
fn parse_type(w: &Vec<char>) -> (r: Option<GlslType>)
    ensures
        r == type_of_word(w@),
{
    if chars_eq_str(w, "float") {
        Some(GlslType::Float)
    } else if chars_eq_str(w, "vec2") {
        Some(GlslType::Vec2)
    } else if chars_eq_str(w, "vec3") {
        Some(GlslType::Vec3)
    } else if chars_eq_str(w, "vec4") {
        Some(GlslType::Vec4)
    } else if chars_eq_str(w, "mat4") {
        Some(GlslType::Mat4)
    } else {
        None
    }
}

/// An executable parsed statement; its view is the statement's [`StmtKind`].
pub enum ParsedStmt {
    Blank,
    DeclIn(GlslType, Vec<char>),
    DeclOut(GlslType, Vec<char>),
    DeclUniform(GlslType, Vec<char>),
    Assign,
    Malformed,
}

impl View for ParsedStmt {
    type V = StmtKind;

    open spec fn view(&self) -> StmtKind {
        match self {
            ParsedStmt::Blank => StmtKind::Blank,
            ParsedStmt::DeclIn(ty, name) => StmtKind::DeclIn { ty: *ty, name: name@ },
            ParsedStmt::DeclOut(ty, name) => StmtKind::DeclOut { ty: *ty, name: name@ },
            ParsedStmt::DeclUniform(ty, name) => StmtKind::DeclUniform { ty: *ty, name: name@ },
            ParsedStmt::Assign => StmtKind::Assign,
            ParsedStmt::Malformed => StmtKind::Malformed,
        }
    }
}

/// Parses one statement, mirroring [`stmt_kind`].
pub fn classify_stmt(st: &Vec<char>) -> (r: ParsedStmt)
    ensures
        r@ == stmt_kind(st@),
{
    let mut ws = split_words(st, 0);
    proof {
        assert(st@.skip(0) =~= st@);
        assert(forall|k: int| 0 <= k < ws@.len() ==> #[trigger] ws@[k]@ == views_of(ws@)[k]);
    }
    if ws.len() == 0 {
        return ParsedStmt::Blank;
    }
    if ws.len() == 3 {
        if chars_eq_str(&ws[0], "in") {
            let ty = parse_type(&ws[1]);
            if ty.is_some() && check_ident(&ws[2]) {
                let name = ws.remove(2);
                return ParsedStmt::DeclIn(ty.unwrap(), name);
            }
        }
        if chars_eq_str(&ws[0], "out") {
            let ty = parse_type(&ws[1]);
            if ty.is_some() && check_ident(&ws[2]) {
                let name = ws.remove(2);
                return ParsedStmt::DeclOut(ty.unwrap(), name);
            }
        }
        if chars_eq_str(&ws[0], "uniform") {
            let ty = parse_type(&ws[1]);
            if ty.is_some() && check_ident(&ws[2]) {
                let name = ws.remove(2);
                return ParsedStmt::DeclUniform(ty.unwrap(), name);
            }
        }
        if check_ident(&ws[0]) && chars_eq_str(&ws[1], "=") && check_ident(&ws[2]) {
            return ParsedStmt::Assign;
        }
    }
    ParsedStmt::Malformed
}

/// Runs the model compiler's front end over a whole source: `Ok` with the
/// stage's interface exactly when the source is well-formed, otherwise
/// `Err` with the (never empty) diagnostic of [`compile_log`].
pub fn parse_source(chars: &Vec<char>) -> (r: Result<StageInterface, Vec<char>>)
    ensures
        r is Ok <==> source_wf(chars@),
        r matches Ok(iface) ==> decls_view(iface.inputs@) == inputs_of(statements(chars@))
            && decls_view(iface.outputs@) == outputs_of(statements(chars@))
            && decls_view(iface.uniforms@) == uniforms_of(statements(chars@)),
        r matches Err(log) ==> log@ == compile_log(chars@) && log@.len() >= 1,
{
    let mut stmts = split_statements(chars, 0);
    proof {
        assert(chars@.skip(0) =~= chars@);
        assert(forall|k: int|
            0 <= k < stmts@.len() ==> #[trigger] stmts@[k]@ == views_of(stmts@)[k]);
    }
    let ghost sts = statements(chars@);
    let n = stmts.len();
    let mut inputs: Vec<VarDecl> = Vec::new();
    let mut outputs: Vec<VarDecl> = Vec::new();
    let mut uniforms: Vec<VarDecl> = Vec::new();
    let mut saw_nonblank = false;
    let mut i: usize = 0;
    while i < n
        invariant
            n == stmts@.len(),
            i <= n,
            views_of(stmts@) == sts,
            sts == statements(chars@),
            forall|k: int| 0 <= k < i ==> !(#[trigger] stmt_kind(sts[k]) is Malformed),
            saw_nonblank <==> exists|k: int| 0 <= k < i && !(#[trigger] stmt_kind(sts[k]) is Blank),
            decls_view(inputs@) == inputs_of(sts.take(i as int)),
            decls_view(outputs@) == outputs_of(sts.take(i as int)),
            decls_view(uniforms@) == uniforms_of(sts.take(i as int)),
        decreases n - i,
    {
        proof {
            assert(stmts@[i as int]@ == sts[i as int]);
            lemma_inputs_of_take_succ(sts, i as int);
            lemma_outputs_of_take_succ(sts, i as int);
            lemma_uniforms_of_take_succ(sts, i as int);
        }
        let parsed = classify_stmt(&stmts[i]);
        match parsed {
            ParsedStmt::Blank => {},
            ParsedStmt::DeclIn(ty, name) => {
                saw_nonblank = true;
                inputs.push(VarDecl { name, ty });
                proof {
                    assert(decls_view(inputs@) =~~= inputs_of(sts.take(i as int + 1)));
                }
            },
            ParsedStmt::DeclOut(ty, name) => {
                saw_nonblank = true;
                outputs.push(VarDecl { name, ty });
                proof {
                    assert(decls_view(outputs@) =~~= outputs_of(sts.take(i as int + 1)));
                }
            },
            ParsedStmt::DeclUniform(ty, name) => {
                saw_nonblank = true;
                uniforms.push(VarDecl { name, ty });
                proof {
                    assert(decls_view(uniforms@) =~~= uniforms_of(sts.take(i as int + 1)));
                }
            },
            ParsedStmt::Assign => {
                saw_nonblank = true;
            },
            ParsedStmt::Malformed => {
                proof {
                    lemma_first_malformed_at(sts, i as int);
                    lemma_words_need_chars(sts[i as int]);
                }
                let log = stmts.remove(i);
                return Err(log);
            },
        }
        proof {
            assert(decls_view(inputs@) =~~= inputs_of(sts.take(i as int + 1)));
            assert(decls_view(outputs@) =~~= outputs_of(sts.take(i as int + 1)));
            assert(decls_view(uniforms@) =~~= uniforms_of(sts.take(i as int + 1)));
        }
        i += 1;
    }
    proof {
        assert(sts.take(n as int) =~= sts);
    }
    if !saw_nonblank {
        proof {
            reveal_strlit("shader source has no statements");
        }
        let log = crate::text::chars_of("shader source has no statements");
        return Err(log);
    }
    Ok(StageInterface { inputs, outputs, uniforms })
}

} // verus!
