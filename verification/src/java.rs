//! A builder for Java source files in the style of JavaPoet: statements,
//! blocks, type/field/method/class descriptions, and a formatter that turns a
//! file description into Java source text.

use vstd::prelude::*;

use crate::text::{chars_to_string, join_seqs, join_strings, push_str_chars, str_chars};

verus! {

broadcast use
    vstd::seq::group_seq_axioms,
    vstd::std_specs::vec::group_vec_axioms,
    vstd::set::group_set_axioms,
    vstd::utf8::char_is_scalar,
    vstd::utf8::char_u32_cast;


/// Errors raised while formatting statements.
#[derive(Clone, Copy, Debug, PartialEq, Eq, Structural)]
pub enum JavaError {
    /// A `$` escape was truncated or names an unknown kind.
    InvalidEscape,
    /// A format string asks for more variables than were supplied.
    VariableUnderflow,
    /// A variable does not have the kind its escape asks for.
    InvalidVariable,
}

/// Java declaration modifiers.
#[derive(Clone, Copy, Debug, PartialEq, Eq, Structural)]
pub enum Modifier {
    Public,
    Protected,
    Private,
    Static,
    Final,
}

/// The canonical position of a modifier: modifier sets are kept sorted in
/// this order.
pub open spec fn modifier_rank(m: Modifier) -> int {
    match m {
        Modifier::Public => 0,
        Modifier::Protected => 1,
        Modifier::Private => 2,
        Modifier::Static => 3,
        Modifier::Final => 4,
    }
}

/// The keyword a modifier prints as.
pub open spec fn modifier_keyword(m: Modifier) -> Seq<char> {
    match m {
        Modifier::Public => "public"@,
        Modifier::Protected => "protected"@,
        Modifier::Private => "private"@,
        Modifier::Static => "static"@,
        Modifier::Final => "final"@,
    }
}

fn modifier_rank_exec(m: Modifier) -> (r: u8)
    ensures
        r as int == modifier_rank(m),
{
    match m {
        Modifier::Public => 0,
        Modifier::Protected => 1,
        Modifier::Private => 2,
        Modifier::Static => 3,
        Modifier::Final => 4,
    }
}

fn modifier_keyword_str(m: Modifier) -> (r: &'static str)
    ensures
        r@ == modifier_keyword(m),
{
    match m {
        Modifier::Public => "public",
        Modifier::Protected => "protected",
        Modifier::Private => "private",
        Modifier::Static => "static",
        Modifier::Final => "final",
    }
}

/// Strictly increasing by rank: sorted and free of duplicates.
pub open spec fn sorted_modifiers(ms: Seq<Modifier>) -> bool {
    forall|i: int, j: int|
        0 <= i < j < ms.len() ==> modifier_rank(ms[i]) < modifier_rank(ms[j])
}

/// The modifier keywords joined by single spaces, in rank order.
pub open spec fn modifiers_chars_from(ms: Seq<Modifier>, i: int) -> Seq<char>
    decreases ms.len() - i,
{
    if i < 0 || i >= ms.len() {
        Seq::empty()
    } else if i + 1 == ms.len() {
        modifier_keyword(ms[i])
    } else {
        modifier_keyword(ms[i]) + seq![' '] + modifiers_chars_from(ms, i + 1)
    }
}

/// An ordered set of declaration modifiers.
#[derive(Debug)]
pub struct Modifiers {
    pub modifiers: Vec<Modifier>,
}

impl Clone for Modifiers {
    fn clone(&self) -> (r: Self)
        ensures
            r@ == self@,
    {
        let mut ms: Vec<Modifier> = Vec::new();
        let mut i: usize = 0;
        while i < self.modifiers.len()
            invariant
                i <= self.modifiers@.len(),
                ms@ =~= self.modifiers@.subrange(0, i as int),
            decreases self.modifiers@.len() - i,
        {
            ms.push(self.modifiers[i]);
            i = i + 1;
        }
        proof {
            assert(ms@ =~= self.modifiers@);
        }
        Modifiers { modifiers: ms }
    }
}

impl Modifiers {
    /// The modifiers held, in rank order.
    pub open spec fn view(&self) -> Seq<Modifier> {
        self.modifiers@
    }

    /// The set is kept strictly sorted by rank.
    pub open spec fn wf(&self) -> bool {
        sorted_modifiers(self.modifiers@)
    }

    /// What `format` returns.
    pub open spec fn chars(&self) -> Seq<char> {
        modifiers_chars_from(self.modifiers@, 0)
    }

    /// An empty modifier set.
    pub fn new() -> (m: Modifiers)
        ensures
            m@ == Seq::<Modifier>::empty(),
            m.wf(),
    {
        Modifiers { modifiers: Vec::new() }
    }

    /// Add a modifier; the set stays sorted and free of duplicates.
    pub fn insert(&mut self, modifier: Modifier)
        requires
            old(self).wf(),
        ensures
            final(self).wf(),
            forall|x: Modifier|
                final(self)@.contains(x) <==> old(self)@.contains(x) || x == modifier,
    {
        let r = modifier_rank_exec(modifier);
        let mut i: usize = 0;
        while i < self.modifiers.len() && modifier_rank_exec(self.modifiers[i]) < r
            invariant
                i <= self.modifiers@.len(),
                forall|j: int| 0 <= j < i ==> modifier_rank(self.modifiers@[j]) < r as int,
                *self == *old(self),
            decreases self.modifiers@.len() - i,
        {
            i = i + 1;
        }
        if i < self.modifiers.len() && modifier_rank_exec(self.modifiers[i]) == r {
            proof {
                assert(modifier_rank(self.modifiers@[i as int]) == modifier_rank(modifier));
                assert(self.modifiers@[i as int] == modifier);
                assert(forall|x: Modifier|
                    self@.contains(x) <==> old(self)@.contains(x) || x == modifier) by {
                    assert(old(self)@.contains(modifier));
                };
            }
            return ;
        }
        proof {
            if i < self.modifiers@.len() {
                assert(modifier_rank(self.modifiers@[i as int]) > r as int);
            }
        }
        let ghost pre = self.modifiers@;
        self.modifiers.insert(i, modifier);
        proof {
            let post = self.modifiers@;
            assert(post == pre.insert(i as int, modifier));
            assert(sorted_modifiers(post)) by {
                assert(forall|a: int, b: int|
                    0 <= a < b < post.len() ==> modifier_rank(post[a]) < modifier_rank(
                        post[b],
                    )) by {
                    assert(forall|a: int|
                        0 <= a < post.len() ==> {
                            if a < i {
                                post[a] == pre[a]
                            } else if a == i {
                                post[a] == modifier
                            } else {
                                post[a] == pre[a - 1]
                            }
                        });
                };
            };
            assert(forall|x: Modifier|
                self@.contains(x) <==> old(self)@.contains(x) || x == modifier) by {
                assert(forall|x: Modifier| #[trigger]
                    pre.contains(x) ==> post.contains(x)) by {
                    assert(forall|j: int|
                        0 <= j < pre.len() ==> post.contains(#[trigger] pre[j])) by {
                        assert(forall|j: int|
                            0 <= j < pre.len() ==> {
                                if j < i {
                                    post[j] == pre[j]
                                } else {
                                    post[j + 1] == pre[j]
                                }
                            });
                    };
                };
                assert(post.contains(modifier)) by {
                    assert(post[i as int] == modifier);
                };
                assert(forall|x: Modifier| #[trigger]
                    post.contains(x) ==> pre.contains(x) || x == modifier) by {
                    assert(forall|j: int|
                        0 <= j < post.len() && post[j] != modifier ==> pre.contains(
                            post[j],
                        )) by {
                        assert(forall|j: int|
                            0 <= j < post.len() ==> {
                                if j < i {
                                    post[j] == pre[j]
                                } else if j == i {
                                    post[j] == modifier
                                } else {
                                    post[j] == pre[j - 1]
                                }
                            });
                    };
                };
            };
        }
    }

    /// Render the modifiers as keywords joined by single spaces.
    pub fn format(&self) -> (r: Result<String, JavaError>)
        ensures
            r matches Ok(s) && s@ == self.chars(),
    {
        let text = modifiers_text(&self.modifiers, 0);
        Ok(chars_to_string(&text))
    }

    /// Whether the set holds no modifiers.
    pub fn is_empty(&self) -> (r: bool)
        ensures
            r == (self@.len() == 0),
    {
        self.modifiers.len() == 0
    }
}

/// The mathematical content of a raw type: its package and its name.
#[verifier::ext_equal]
pub ghost struct TypeV {
    pub package: Seq<char>,
    pub name: Seq<char>,
}

/// The mathematical content of a complete type, generic arguments included.
#[verifier::ext_equal]
pub ghost struct TypeSpecV {
    pub raw: TypeV,
    pub arguments: Seq<TypeSpecV>,
}

/// A raw (importable) Java type.
#[derive(Debug)]
pub struct Type {
    pub package: String,
    pub name: String,
}

impl View for Type {
    type V = TypeV;

    open spec fn view(&self) -> TypeV {
        TypeV { package: self.package@, name: self.name@ }
    }
}

impl Clone for Type {
    fn clone(&self) -> (r: Self)
        ensures
            r@ == self@,
    {
        Type { package: self.package.clone(), name: self.name.clone() }
    }
}

/// The content of a sequence of complete types.
pub open spec fn typespecs_v(ts: Seq<TypeSpec>) -> Seq<TypeSpecV>
    decreases ts,
{
    if ts.len() == 0 {
        Seq::empty()
    } else {
        seq![typespec_v(ts[0])] + typespecs_v(ts.drop_first())
    }
}

/// Element views line up with the elements.
pub broadcast proof fn lemma_typespecs_v_len(ts: Seq<TypeSpec>)
    ensures
        (#[trigger] typespecs_v(ts)).len() == ts.len(),
    decreases ts.len(),
{
    if ts.len() > 0 {
        lemma_typespecs_v_len(ts.drop_first());
    }
}

/// The view of the sequence indexes to the view of the element.
pub broadcast proof fn lemma_typespecs_v_index(ts: Seq<TypeSpec>, i: int)
    requires
        0 <= i < ts.len(),
    ensures
        #[trigger] typespecs_v(ts)[i] == typespec_v(ts[i]),
    decreases ts.len(),
{
    lemma_typespecs_v_len(ts);
    if i > 0 {
        lemma_typespecs_v_index(ts.drop_first(), i - 1);
    }
}

/// The content of a complete type.
pub open spec fn typespec_v(t: TypeSpec) -> TypeSpecV
    decreases t,
{
    TypeSpecV { raw: t.raw@, arguments: typespecs_v(t.arguments@) }
}

/// A complete Java type, including generic arguments.
#[derive(Debug)]
pub struct TypeSpec {
    pub raw: Type,
    pub arguments: Vec<TypeSpec>,
}

impl View for TypeSpec {
    type V = TypeSpecV;

    open spec fn view(&self) -> TypeSpecV {
        typespec_v(*self)
    }
}

impl Clone for TypeSpec {
    fn clone(&self) -> (r: Self)
        ensures
            r@ == self@,
        decreases *self,
    {
        let mut arguments: Vec<TypeSpec> = Vec::new();
        let mut i: usize = 0;
        while i < self.arguments.len()
            invariant
                i <= self.arguments@.len(),
                arguments@.len() == i,
                forall|j: int|
                    0 <= j < i ==> typespec_v(arguments@[j]) == typespec_v(self.arguments@[j]),
            decreases self.arguments@.len() - i,
        {
            arguments.push(self.arguments[i].clone());
            i = i + 1;
        }
        let r = TypeSpec { raw: self.raw.clone(), arguments };
        proof {
            broadcast use lemma_typespecs_v_len, lemma_typespecs_v_index;

            assert(typespecs_v(r.arguments@) =~= typespecs_v(self.arguments@));
            assert(r@ =~= self@);
        }
        r
    }
}

/// Conversion into a complete type.
pub trait AsTypeSpec {
    /// The complete type this value stands for.
    spec fn as_type_spec_v(&self) -> TypeSpecV;

    /// Convert into a complete type.
    fn as_type_spec(&self) -> (t: TypeSpec)
        ensures
            t@ == self.as_type_spec_v(),
    ;
}

impl AsTypeSpec for Type {
    open spec fn as_type_spec_v(&self) -> TypeSpecV {
        TypeSpecV { raw: self@, arguments: Seq::empty() }
    }

    fn as_type_spec(&self) -> (t: TypeSpec)
        ensures
            t@ == self.as_type_spec_v(),
    {
        let t = TypeSpec { raw: self.clone(), arguments: Vec::new() };
        proof {
            assert(t@ =~= self.as_type_spec_v());
        }
        t
    }
}

impl AsTypeSpec for TypeSpec {
    open spec fn as_type_spec_v(&self) -> TypeSpecV {
        typespec_v(*self)
    }

    fn as_type_spec(&self) -> (t: TypeSpec)
        ensures
            t@ == self.as_type_spec_v(),
    {
        self.clone()
    }
}

impl Type {
    /// A raw type in the given package.
    pub fn new(package: &str, name: &str) -> (t: Type)
        ensures
            t@ == (TypeV { package: package@, name: name@ }),
    {
        Type { package: package.to_owned(), name: name.to_owned() }
    }

    /// This raw type applied to the given generic arguments.
    pub fn with_arguments<I: AsTypeSpec>(&self, arguments: Vec<I>) -> (r: TypeSpec)
        ensures
            r@ == (TypeSpecV {
                raw: self@,
                arguments: Seq::new(arguments@.len(), |i: int| arguments@[i].as_type_spec_v()),
            }),
    {
        let mut args: Vec<TypeSpec> = Vec::new();
        let mut i: usize = 0;
        while i < arguments.len()
            invariant
                i <= arguments@.len(),
                args@.len() == i,
                forall|j: int|
                    0 <= j < i ==> typespec_v(args@[j]) == arguments@[j].as_type_spec_v(),
            decreases arguments@.len() - i,
        {
            args.push(arguments[i].as_type_spec());
            i = i + 1;
        }
        let r = TypeSpec { raw: self.clone(), arguments: args };
        proof {
            broadcast use lemma_typespecs_v_len, lemma_typespecs_v_index;

            assert(typespecs_v(r.arguments@) =~= Seq::new(
                arguments@.len(),
                |i: int| arguments@[i].as_type_spec_v(),
            ));
            assert(r@ =~= (TypeSpecV {
                raw: self@,
                arguments: Seq::new(arguments@.len(), |i: int| arguments@[i].as_type_spec_v()),
            }));
        }
        r
    }
}

/// The text a complete type formats to: its name, followed by its formatted
/// generic arguments in angle brackets when it has any.
pub open spec fn type_chars(t: TypeSpecV) -> Seq<char>
    decreases t,
{
    if t.arguments.len() == 0 {
        t.raw.name
    } else {
        t.raw.name + seq!['<'] + type_args_chars(t.arguments, 0) + seq!['>']
    }
}

/// The formatted generic arguments from position `i` on, joined by `", "`.
pub open spec fn type_args_chars(args: Seq<TypeSpecV>, i: int) -> Seq<char>
    decreases args, args.len() - i,
{
    if i < 0 || i >= args.len() {
        Seq::empty()
    } else if i + 1 == args.len() {
        type_chars(args[i])
    } else {
        type_chars(args[i]) + seq![',', ' '] + type_args_chars(args, i + 1)
    }
}

fn typespec_text(t: &TypeSpec) -> (r: Vec<char>)
    ensures
        r@ == type_chars(t@),
    decreases *t,
{
    let mut out: Vec<char> = Vec::new();
    push_str_chars(&mut out, t.raw.name.as_str());
    if t.arguments.len() > 0 {
        out.push('<');
        let mut args = typespec_args_text(&t.arguments, 0);
        out.append(&mut args);
        out.push('>');
    }
    proof {
        broadcast use lemma_typespecs_v_len;

        assert(out@ =~= type_chars(t@));
    }
    out
}

fn typespec_args_text(args: &Vec<TypeSpec>, i: usize) -> (r: Vec<char>)
    requires
        i <= args@.len(),
    ensures
        r@ == type_args_chars(typespecs_v(args@), i as int),
    decreases *args, args@.len() - i,
{
    let mut out: Vec<char> = Vec::new();
    if i >= args.len() {
        proof {
            broadcast use lemma_typespecs_v_len;

        }
        return out;
    }
    let mut head = typespec_text(&args[i]);
    out.append(&mut head);
    if i + 1 < args.len() {
        out.push(',');
        out.push(' ');
        let mut tail = typespec_args_text(args, i + 1);
        out.append(&mut tail);
    }
    proof {
        broadcast use lemma_typespecs_v_len, lemma_typespecs_v_index;

        assert(typespecs_v(args@)[i as int] == typespec_v(args@[i as int]));
        assert(out@ =~= type_args_chars(typespecs_v(args@), i as int));
    }
    out
}

impl TypeSpec {
    /// A complete type from a raw type and its generic arguments.
    pub fn new(raw: Type, arguments: Vec<TypeSpec>) -> (r: TypeSpec)
        ensures
            r@ == (TypeSpecV { raw: raw@, arguments: typespecs_v(arguments@) }),
    {
        let r = TypeSpec { raw, arguments };
        proof {
            broadcast use lemma_typespecs_v_len, lemma_typespecs_v_index;

            assert(r@ =~= (TypeSpecV { raw: r.raw@, arguments: typespecs_v(r.arguments@) }));
        }
        r
    }

    /// Render this type, generic arguments included.
    pub fn format(&self) -> (r: Result<String, JavaError>)
        ensures
            r matches Ok(s) && s@ == type_chars(self@),
    {
        let text = typespec_text(self);
        Ok(chars_to_string(&text))
    }
}

/// Lexicographic order on character sequences by code point.
pub open spec fn chars_lt(a: Seq<char>, b: Seq<char>) -> bool
    decreases a.len(),
{
    if b.len() == 0 {
        false
    } else if a.len() == 0 {
        true
    } else if a[0] == b[0] {
        chars_lt(a.drop_first(), b.drop_first())
    } else {
        (a[0] as u32) < (b[0] as u32)
    }
}

/// Raw types ordered by package, then by name.
pub open spec fn typev_lt(a: TypeV, b: TypeV) -> bool {
    chars_lt(a.package, b.package) || (a.package == b.package && chars_lt(a.name, b.name))
}

/// Two character sequences that neither precede the other are equal.
proof fn lemma_chars_lt_connected(a: Seq<char>, b: Seq<char>)
    requires
        !chars_lt(a, b),
        !chars_lt(b, a),
    ensures
        a == b,
    decreases a.len(),
{
    if b.len() == 0 {
        assert(a.len() == 0);
        assert(a =~= b);
    } else if a.len() == 0 {
        assert(chars_lt(a, b));
    } else if a[0] == b[0] {
        lemma_chars_lt_connected(a.drop_first(), b.drop_first());
        assert(a.drop_first().len() == b.drop_first().len());
        assert(a.len() == b.len());
        assert forall|i: int| 0 <= i < a.len() implies a[i] == b[i] by {
            if i > 0 {
                assert(a[i] == a.drop_first()[i - 1]);
                assert(b[i] == b.drop_first()[i - 1]);
            }
        };
        assert(a =~= b);
    } else {
        assert((a[0] as u32) == (b[0] as u32));
        vstd::utf8::char_u32_cast(a[0], a[0] as u32);
        vstd::utf8::char_u32_cast(b[0], b[0] as u32);
        assert(a[0] == b[0]);
    }
}

/// The order on character sequences is transitive.
proof fn lemma_chars_lt_trans(a: Seq<char>, b: Seq<char>, c: Seq<char>)
    requires
        chars_lt(a, b),
        chars_lt(b, c),
    ensures
        chars_lt(a, c),
    decreases a.len(),
{
    if c.len() == 0 {
        assert(!chars_lt(b, c));
    } else if a.len() == 0 {
    } else {
        assert(b.len() > 0);
        if a[0] == b[0] && b[0] == c[0] {
            lemma_chars_lt_trans(a.drop_first(), b.drop_first(), c.drop_first());
        }
    }
}

/// The order on character sequences is irreflexive.
proof fn lemma_chars_lt_irrefl(a: Seq<char>)
    ensures
        !chars_lt(a, a),
    decreases a.len(),
{
    if a.len() > 0 {
        lemma_chars_lt_irrefl(a.drop_first());
    }
}

/// Raw types that neither precede the other are equal.
proof fn lemma_typev_lt_connected(a: TypeV, b: TypeV)
    requires
        !typev_lt(a, b),
        !typev_lt(b, a),
    ensures
        a == b,
{
    lemma_chars_lt_connected(a.package, b.package);
    lemma_chars_lt_connected(a.name, b.name);
    assert(a =~= b);
}

/// The order on raw types is transitive.
proof fn lemma_typev_lt_trans(a: TypeV, b: TypeV, c: TypeV)
    requires
        typev_lt(a, b),
        typev_lt(b, c),
    ensures
        typev_lt(a, c),
{
    if chars_lt(a.package, b.package) && chars_lt(b.package, c.package) {
        lemma_chars_lt_trans(a.package, b.package, c.package);
    } else if a.package == b.package && b.package == c.package {
        lemma_chars_lt_trans(a.name, b.name, c.name);
    }
}

/// The order on raw types is irreflexive.
proof fn lemma_typev_lt_irrefl(a: TypeV)
    ensures
        !typev_lt(a, a),
{
    lemma_chars_lt_irrefl(a.package);
    lemma_chars_lt_irrefl(a.name);
}

fn chars_cmp_from(a: &Vec<char>, b: &Vec<char>, i: usize) -> (r: i8)
    requires
        i <= a@.len(),
        i <= b@.len(),
    ensures
        -1 <= r <= 1,
        r == -1 ==> chars_lt(a@.skip(i as int), b@.skip(i as int)),
        r == 0 ==> a@.skip(i as int) == b@.skip(i as int),
        r == 1 ==> chars_lt(b@.skip(i as int), a@.skip(i as int)),
    decreases a@.len() - i,
{
    proof {
        assert(a@.skip(i as int).len() == a@.len() - i);
        assert(b@.skip(i as int).len() == b@.len() - i);
    }
    if i >= b.len() {
        if i >= a.len() {
            proof {
                assert(a@.skip(i as int) =~= b@.skip(i as int));
            }
            0
        } else {
            1
        }
    } else if i >= a.len() {
        -1
    } else {
        let ca = a[i];
        let cb = b[i];
        proof {
            assert(a@.skip(i as int)[0] == a@[i as int]);
            assert(b@.skip(i as int)[0] == b@[i as int]);
            assert(a@.skip(i as int).drop_first() =~= a@.skip(i as int + 1));
            assert(b@.skip(i as int).drop_first() =~= b@.skip(i as int + 1));
        }
        if ca == cb {
            let r = chars_cmp_from(a, b, i + 1);
            proof {
                if r == 0 {
                    assert forall|j: int| 0 <= j < a@.skip(i as int).len() implies a@.skip(
                        i as int,
                    )[j] == b@.skip(i as int)[j] by {
                        assert(a@.skip(i as int)[j] == a@[i + j]);
                        assert(b@.skip(i as int)[j] == b@[i + j]);
                        if j > 0 {
                            assert(a@[i + j] == a@.skip(i as int + 1)[j - 1]);
                            assert(b@[i + j] == b@.skip(i as int + 1)[j - 1]);
                        }
                    };
                    assert(a@.skip(i as int) =~= b@.skip(i as int));
                }
            }
            r
        } else if (ca as u32) < (cb as u32) {
            -1
        } else {
            proof {
                vstd::utf8::char_u32_cast(ca, ca as u32);
                vstd::utf8::char_u32_cast(cb, cb as u32);
                assert((cb as u32) < (ca as u32));
            }
            1
        }
    }
}

fn string_chars_cmp(a: &String, b: &String) -> (r: i8)
    ensures
        -1 <= r <= 1,
        r == -1 ==> chars_lt(a@, b@),
        r == 0 ==> a@ == b@,
        r == 1 ==> chars_lt(b@, a@),
{
    let ca = str_chars(a.as_str());
    let cb = str_chars(b.as_str());
    let r = chars_cmp_from(&ca, &cb, 0);
    proof {
        assert(ca@.skip(0) =~= a@);
        assert(cb@.skip(0) =~= b@);
    }
    r
}

fn type_cmp(a: &Type, b: &Type) -> (r: i8)
    ensures
        -1 <= r <= 1,
        r == -1 ==> typev_lt(a@, b@),
        r == 0 ==> a@ == b@,
        r == 1 ==> typev_lt(b@, a@),
{
    let p = string_chars_cmp(&a.package, &b.package);
    if p != 0 {
        return p;
    }
    let n = string_chars_cmp(&a.name, &b.name);
    proof {
        if n == 0 {
            assert(a@ =~= b@);
        }
    }
    n
}

/// Strictly ascending by the type order: sorted and free of duplicates.
pub open spec fn sorted_typevs(s: Seq<TypeV>) -> bool {
    forall|i: int, j: int| 0 <= i < j < s.len() ==> typev_lt(s[i], s[j])
}

/// The content of a sequence of raw types.
pub open spec fn types_v(ts: Seq<Type>) -> Seq<TypeV> {
    Seq::new(ts.len(), |i: int| ts[i]@)
}

fn find_slot(items: &Vec<Type>, t: &Type) -> (r: (usize, bool))
    ensures
        r.1 ==> r.0 < items@.len() && types_v(items@)[r.0 as int] == t@,
        !r.1 ==> r.0 <= items@.len() && (r.0 < items@.len() ==> typev_lt(
            t@,
            types_v(items@)[r.0 as int],
        )),
        forall|j: int| 0 <= j < r.0 ==> typev_lt(types_v(items@)[j], t@),
{
    let mut i: usize = 0;
    loop
        invariant
            i <= items@.len(),
            forall|j: int| 0 <= j < i ==> typev_lt(types_v(items@)[j], t@),
        decreases items@.len() - i,
    {
        if i >= items.len() {
            return (i, false);
        }
        let c = type_cmp(&items[i], t);
        if c == 0 {
            return (i, true);
        }
        if c == 1 {
            return (i, false);
        }
        proof {
            assert(typev_lt(types_v(items@)[i as int], t@));
        }
        i = i + 1;
    }
}

/// An ordered set of raw types, used to collect the imports a file needs.
#[derive(Debug)]
pub struct TypeSet {
    items: Vec<Type>,
}

impl View for TypeSet {
    type V = Seq<TypeV>;

    closed spec fn view(&self) -> Seq<TypeV> {
        types_v(self.items@)
    }
}

impl TypeSet {
    /// The held types are kept strictly sorted in the type order.
    pub closed spec fn wf(&self) -> bool {
        sorted_typevs(self@)
    }

    /// An empty set.
    pub fn new() -> (r: TypeSet)
        ensures
            r@ == Seq::<TypeV>::empty(),
            r.wf(),
    {
        let r = TypeSet { items: Vec::new() };
        proof {
            assert(r@ =~= Seq::<TypeV>::empty());
        }
        r
    }

    /// The types collected so far, in ascending type order.
    pub fn items(&self) -> (r: &Vec<Type>)
        ensures
            types_v(r@) == self@,
    {
        &self.items
    }

    /// Record a type. The set stays sorted and holds each type once.
    fn insert_sorted(&mut self, type_: &Type)
        requires
            old(self).wf(),
        ensures
            final(self).wf(),
            forall|k: TypeV|
                final(self)@.contains(k) <==> old(self)@.contains(k) || k == type_@,
    {
        let (i, found) = find_slot(&self.items, type_);
        if found {
            proof {
                assert(self@[i as int] == type_@);
                assert(self@.contains(type_@));
                assert(forall|k: TypeV|
                    self@.contains(k) <==> old(self)@.contains(k) || k == type_@);
            }
            return ;
        }
        let ghost pre = self@;
        let ghost kv = type_@;
        self.items.insert(i, type_.clone());
        proof {
            let post = self@;
            assert(post.len() == pre.len() + 1);
            assert(forall|a: int|
                0 <= a < post.len() ==> {
                    if a < i {
                        post[a] == pre[a]
                    } else if a == i {
                        post[a] == kv
                    } else {
                        post[a] == pre[a - 1]
                    }
                });
            assert(sorted_typevs(post)) by {
                assert(forall|a: int, b: int|
                    0 <= a < b < post.len() ==> typev_lt(post[a], post[b])) by {
                    assert(forall|a: int, b: int|
                        0 <= a < b < post.len() && a != i && b != i ==> typev_lt(
                            post[a],
                            post[b],
                        ));
                    assert(forall|b: int| (i as int) < b < post.len() ==> typev_lt(kv, post[b]))
                        by {
                        if i < pre.len() {
                            assert(forall|b: int|
                                (i as int) < b < post.len() ==> {
                                    if b == i + 1 {
                                        typev_lt(kv, post[b])
                                    } else {
                                        typev_lt(kv, pre[i as int]) && typev_lt(
                                            pre[i as int],
                                            pre[b - 1],
                                        ) && (typev_lt(kv, post[b]) || !typev_lt(
                                            kv,
                                            post[b],
                                        ))
                                    }
                                });
                            assert forall|b: int| (i as int) + 1 < b < post.len() implies
                                typev_lt(kv, post[b]) by {
                                lemma_typev_lt_trans(kv, pre[i as int], pre[b - 1]);
                            };
                        }
                    };
                };
            };
            assert(forall|k: TypeV| post.contains(k) <==> pre.contains(k) || k == kv) by {
                assert(forall|j: int|
                    0 <= j < pre.len() ==> post.contains(#[trigger] pre[j])) by {
                    assert(forall|j: int|
                        0 <= j < pre.len() ==> {
                            if j < i {
                                post[j] == pre[j]
                            } else {
                                post[j + 1] == pre[j]
                            }
                        });
                };
                assert(post.contains(kv)) by {
                    assert(post[i as int] == kv);
                };
                assert(forall|j: int|
                    0 <= j < post.len() && post[j] != kv ==> pre.contains(post[j]));
            };
        }
    }
}

fn modifiers_text(ms: &Vec<Modifier>, i: usize) -> (r: Vec<char>)
    requires
        i <= ms@.len(),
    ensures
        r@ == modifiers_chars_from(ms@, i as int),
    decreases ms@.len() - i,
{
    let mut out: Vec<char> = Vec::new();
    if i >= ms.len() {
        return out;
    }
    push_str_chars(&mut out, modifier_keyword_str(ms[i]));
    if i + 1 < ms.len() {
        out.push(' ');
        let mut tail = modifiers_text(ms, i + 1);
        out.append(&mut tail);
    }
    proof {
        assert(out@ =~= modifiers_chars_from(ms@, i as int));
    }
    out
}


/// The mathematical content of a statement.
#[verifier::ext_equal]
pub ghost struct StatementV {
    pub parts: Seq<StatementPartV>,
}

/// The mathematical content of a formatting variable.
#[verifier::ext_equal]
pub ghost enum VariableV {
    Literal(Seq<char>),
    TypeSpec(TypeSpecV),
    String(Seq<char>),
    Name(Seq<char>),
    Statement(StatementV),
}

/// The mathematical content of one part of a statement.
#[verifier::ext_equal]
pub ghost enum StatementPartV {
    Literal(Seq<char>),
    Format(Seq<char>, Seq<VariableV>),
    Statement(StatementV),
    Spacing,
}

/// A variable interpolated into a statement through a `$` escape.
#[derive(Debug)]
pub enum Variable {
    /// Printed as it stands (`$L`).
    Literal(String),
    /// A complete type, formatted on demand (`$T`).
    TypeSpec(TypeSpec),
    /// Quoted as a Java string literal (`$S`).
    String(String),
    /// A name, printed as it stands (`$N`).
    Name(String),
    /// A nested statement, formatted and joined by spaces (`$$`).
    Statement(Statement),
}

/// One part of a statement.
#[derive(Debug)]
pub enum StatementPart {
    /// A literal string.
    Literal(String),
    /// A format string with its variables.
    Format(String, Vec<Variable>),
    /// A nested statement.
    Statement(Statement),
    /// A line break.
    Spacing,
}

/// A statement: a sequence of parts formatted into one or more lines.
#[derive(Debug)]
pub struct Statement {
    parts: Vec<StatementPart>,
}

/// The content of a statement.
pub closed spec fn stmt_v(s: Statement) -> StatementV
    decreases s,
{
    StatementV { parts: parts_v(s.parts@) }
}

/// The content of a sequence of statement parts.
pub open spec fn parts_v(ps: Seq<StatementPart>) -> Seq<StatementPartV>
    decreases ps,
{
    if ps.len() == 0 {
        Seq::empty()
    } else {
        seq![part_v(ps[0])] + parts_v(ps.drop_first())
    }
}

/// The content of one statement part.
pub open spec fn part_v(p: StatementPart) -> StatementPartV
    decreases p,
{
    match p {
        StatementPart::Literal(s) => StatementPartV::Literal(s@),
        StatementPart::Format(f, vars) => StatementPartV::Format(f@, vars_v(vars@)),
        StatementPart::Statement(st) => StatementPartV::Statement(stmt_v(st)),
        StatementPart::Spacing => StatementPartV::Spacing,
    }
}

/// The content of a sequence of variables.
pub open spec fn vars_v(vs: Seq<Variable>) -> Seq<VariableV>
    decreases vs,
{
    if vs.len() == 0 {
        Seq::empty()
    } else {
        seq![var_v(vs[0])] + vars_v(vs.drop_first())
    }
}

/// The content of one variable.
pub open spec fn var_v(v: Variable) -> VariableV
    decreases v,
{
    match v {
        Variable::Literal(s) => VariableV::Literal(s@),
        Variable::TypeSpec(t) => VariableV::TypeSpec(typespec_v(t)),
        Variable::String(s) => VariableV::String(s@),
        Variable::Name(s) => VariableV::Name(s@),
        Variable::Statement(st) => VariableV::Statement(stmt_v(st)),
    }
}

/// Element views line up with the elements.
pub broadcast proof fn lemma_parts_v_len(ps: Seq<StatementPart>)
    ensures
        (#[trigger] parts_v(ps)).len() == ps.len(),
    decreases ps.len(),
{
    if ps.len() > 0 {
        lemma_parts_v_len(ps.drop_first());
    }
}

/// The view of the sequence indexes to the view of the element.
pub broadcast proof fn lemma_parts_v_index(ps: Seq<StatementPart>, i: int)
    requires
        0 <= i < ps.len(),
    ensures
        #[trigger] parts_v(ps)[i] == part_v(ps[i]),
    decreases ps.len(),
{
    lemma_parts_v_len(ps);
    if i > 0 {
        lemma_parts_v_index(ps.drop_first(), i - 1);
    }
}

/// Element views line up with the elements.
pub broadcast proof fn lemma_vars_v_len(vs: Seq<Variable>)
    ensures
        (#[trigger] vars_v(vs)).len() == vs.len(),
    decreases vs.len(),
{
    if vs.len() > 0 {
        lemma_vars_v_len(vs.drop_first());
    }
}

/// The view of the sequence indexes to the view of the element.
pub broadcast proof fn lemma_vars_v_index(vs: Seq<Variable>, i: int)
    requires
        0 <= i < vs.len(),
    ensures
        #[trigger] vars_v(vs)[i] == var_v(vs[i]),
    decreases vs.len(),
{
    lemma_vars_v_len(vs);
    if i > 0 {
        lemma_vars_v_index(vs.drop_first(), i - 1);
    }
}

impl View for Statement {
    type V = StatementV;

    open spec fn view(&self) -> StatementV {
        stmt_v(*self)
    }
}

impl Clone for Variable {
    fn clone(&self) -> (r: Self)
        ensures
            var_v(r) == var_v(*self),
        decreases *self,
    {
        match self {
            Variable::Literal(s) => Variable::Literal(s.clone()),
            Variable::TypeSpec(t) => Variable::TypeSpec(t.clone()),
            Variable::String(s) => Variable::String(s.clone()),
            Variable::Name(s) => Variable::Name(s.clone()),
            Variable::Statement(st) => Variable::Statement(st.clone()),
        }
    }
}

fn clone_variables(vars: &Vec<Variable>) -> (r: Vec<Variable>)
    ensures
        vars_v(r@) == vars_v(vars@),
    decreases *vars,
{
    let mut vs: Vec<Variable> = Vec::new();
    let mut i: usize = 0;
    while i < vars.len()
        invariant
            i <= vars@.len(),
            vs@.len() == i,
            forall|j: int| 0 <= j < i ==> var_v(vs@[j]) == var_v(vars@[j]),
        decreases vars@.len() - i,
    {
        vs.push(vars[i].clone());
        i = i + 1;
    }
    proof {
        broadcast use lemma_vars_v_len, lemma_vars_v_index;

        assert(vars_v(vs@) =~= vars_v(vars@));
    }
    vs
}

impl Clone for StatementPart {
    fn clone(&self) -> (r: Self)
        ensures
            part_v(r) == part_v(*self),
        decreases *self,
    {
        match self {
            StatementPart::Literal(s) => StatementPart::Literal(s.clone()),
            StatementPart::Format(f, vars) => {
                let vs = clone_variables(vars);
                StatementPart::Format(f.clone(), vs)
            },
            StatementPart::Statement(st) => StatementPart::Statement(st.clone()),
            StatementPart::Spacing => StatementPart::Spacing,
        }
    }
}

impl Clone for Statement {
    fn clone(&self) -> (r: Self)
        ensures
            r@ == self@,
        decreases *self,
    {
        let mut parts: Vec<StatementPart> = Vec::new();
        let mut i: usize = 0;
        while i < self.parts.len()
            invariant
                i <= self.parts@.len(),
                parts@.len() == i,
                forall|j: int| 0 <= j < i ==> part_v(parts@[j]) == part_v(self.parts@[j]),
            decreases self.parts@.len() - i,
        {
            parts.push(self.parts[i].clone());
            i = i + 1;
        }
        let r = Statement { parts };
        proof {
            broadcast use lemma_parts_v_len, lemma_parts_v_index;

            assert(parts_v(r.parts@) =~= parts_v(self.parts@));
            assert(r@ =~= self@);
        }
        r
    }
}

/// A statement joined by a literal: the original parts with the literal
/// inserted between each neighbouring pair.
pub open spec fn stmt_join_v(s: StatementV, lit: Seq<char>) -> StatementV {
    StatementV {
        parts: Seq::new(
            if s.parts.len() == 0 {
                0nat
            } else {
                (2 * s.parts.len() - 1) as nat
            },
            |k: int|
                if k % 2 == 0 {
                    s.parts[k / 2]
                } else {
                    StatementPartV::Literal(lit)
                },
        ),
    }
}

impl Statement {
    /// An empty statement.
    pub fn new() -> (r: Statement)
        ensures
            r@ == (StatementV { parts: Seq::empty() }),
    {
        let r = Statement { parts: Vec::new() };
        proof {
            assert(r@ =~= (StatementV { parts: Seq::empty() }));
        }
        r
    }

    /// Append a line break.
    pub fn push_spacing(&mut self)
        ensures
            final(self)@ == (StatementV { parts: old(self)@.parts.push(StatementPartV::Spacing) }),
    {
        let ghost pre = self.parts@;
        self.parts.push(StatementPart::Spacing);
        proof {
            broadcast use lemma_parts_v_len, lemma_parts_v_index;

            assert(parts_v(self.parts@) =~= parts_v(pre).push(StatementPartV::Spacing));
        }
    }

    /// Append a literal part.
    pub fn push_literal(&mut self, literal: &str)
        ensures
            final(self)@ == (StatementV {
                parts: old(self)@.parts.push(StatementPartV::Literal(literal@)),
            }),
    {
        let ghost pre = self.parts@;
        self.parts.push(StatementPart::Literal(literal.to_owned()));
        proof {
            broadcast use lemma_parts_v_len, lemma_parts_v_index;

            assert(parts_v(self.parts@) =~= parts_v(pre).push(StatementPartV::Literal(literal@)));
        }
    }

    /// Append a nested statement.
    pub fn push_statement(&mut self, statement: Statement)
        ensures
            final(self)@ == (StatementV {
                parts: old(self)@.parts.push(StatementPartV::Statement(statement@)),
            }),
    {
        let ghost pre = self.parts@;
        self.parts.push(StatementPart::Statement(statement));
        proof {
            broadcast use lemma_parts_v_len, lemma_parts_v_index;

            assert(parts_v(self.parts@) =~= parts_v(pre).push(
                parts_v(self.parts@)[pre.len() as int],
            ));
        }
    }

    /// Append a format string with its variables.
    pub fn push(&mut self, format: &str, variables: Vec<Variable>)
        ensures
            final(self)@ == (StatementV {
                parts: old(self)@.parts.push(StatementPartV::Format(format@, vars_v(variables@))),
            }),
    {
        let ghost vsv = vars_v(variables@);
        let ghost pre = self.parts@;
        self.parts.push(StatementPart::Format(format.to_owned(), variables));
        proof {
            broadcast use lemma_parts_v_len, lemma_parts_v_index;

            assert(parts_v(self.parts@) =~= parts_v(pre).push(StatementPartV::Format(format@, vsv)));
        }
    }

    /// This statement with the literal inserted between neighbouring parts.
    pub fn join(self, literal: &str) -> (r: Statement)
        ensures
            r@ == stmt_join_v(self@, literal@),
    {
        let mut parts: Vec<StatementPart> = Vec::new();
        let mut i: usize = 0;
        while i < self.parts.len()
            invariant
                i <= self.parts@.len(),
                parts@.len() == if i == 0 { 0int } else { 2 * i - 1 },
                forall|k: int|
                    0 <= k < parts@.len() ==> part_v(parts@[k]) == (if k % 2 == 0 {
                        part_v(self.parts@[k / 2])
                    } else {
                        StatementPartV::Literal(literal@)
                    }),
            decreases self.parts@.len() - i,
        {
            if i > 0 {
                parts.push(StatementPart::Literal(literal.to_owned()));
            }
            parts.push(self.parts[i].clone());
            i = i + 1;
        }
        let r = Statement { parts };
        proof {
            broadcast use lemma_parts_v_len, lemma_parts_v_index;

            let target = stmt_join_v(self@, literal@).parts;
            assert(self@.parts == parts_v(self.parts@));
            assert(parts_v(r.parts@).len() == target.len());
            assert forall|k: int| 0 <= k < target.len() implies parts_v(r.parts@)[k] == target[k] by {
                assert(parts_v(r.parts@)[k] == part_v(r.parts@[k]));
                if k % 2 == 0 {
                    assert(self@.parts[k / 2] == part_v(self.parts@[k / 2]));
                }
            };
            assert(parts_v(r.parts@) =~= target);
            assert(r@ =~= stmt_join_v(self@, literal@));
        }
        r
    }
}

/// How one character appears inside a Java string literal.
pub open spec fn escaped_char(c: char) -> Seq<char> {
    if c == '\t' {
        seq!['\\', 't']
    } else if c == '\u{0007}' {
        seq!['\\', 'b']
    } else if c == '\n' {
        seq!['\\', 'n']
    } else if c == '\r' {
        seq!['\\', 'r']
    } else if c == '\u{0014}' {
        seq!['\\', 'f']
    } else if c == '\'' {
        seq!['\\', '\'']
    } else if c == '"' {
        seq!['\\', '"']
    } else if c == '\\' {
        seq!['\\', '\\']
    } else {
        seq![c]
    }
}

/// The escaped forms of the characters from position `i` on.
pub open spec fn escaped_chars_from(s: Seq<char>, i: int) -> Seq<char>
    decreases s.len() - i,
{
    if i < 0 || i >= s.len() {
        Seq::empty()
    } else {
        escaped_char(s[i]) + escaped_chars_from(s, i + 1)
    }
}

/// A Java string literal: the escaped characters between double quotes.
pub open spec fn quoted(s: Seq<char>) -> Seq<char> {
    seq!['"'] + escaped_chars_from(s, 0) + seq!['"']
}

fn push_escaped(out: &mut Vec<char>, c: char)
    ensures
        final(out)@ == old(out)@ + escaped_char(c),
{
    match c {
        '\t' => {
            out.push('\\');
            out.push('t');
        },
        '\u{0007}' => {
            out.push('\\');
            out.push('b');
        },
        '\n' => {
            out.push('\\');
            out.push('n');
        },
        '\r' => {
            out.push('\\');
            out.push('r');
        },
        '\u{0014}' => {
            out.push('\\');
            out.push('f');
        },
        '\'' => {
            out.push('\\');
            out.push('\'');
        },
        '"' => {
            out.push('\\');
            out.push('"');
        },
        '\\' => {
            out.push('\\');
            out.push('\\');
        },
        _ => {
            out.push(c);
        },
    }
    proof {
        assert(out@ =~= old(out)@ + escaped_char(c));
    }
}

/// Quote a string as a Java string literal.
fn java_quote_string(input: &str) -> (r: String)
    ensures
        r@ == quoted(input@),
{
    let chars = str_chars(input);
    let mut out: Vec<char> = Vec::new();
    out.push('"');
    let mut i: usize = 0;
    while i < chars.len()
        invariant
            i <= chars@.len(),
            chars@ == input@,
            out@ + escaped_chars_from(chars@, i as int) == seq!['"'] + escaped_chars_from(
                chars@,
                0,
            ),
        decreases chars@.len() - i,
    {
        let ghost pre = out@;
        push_escaped(&mut out, chars[i]);
        proof {
            crate::text::lemma_add3(pre, escaped_char(chars@[i as int]), escaped_chars_from(chars@, i + 1));
        }
        i = i + 1;
    }
    out.push('"');
    proof {
        assert(out@ =~= quoted(input@));
    }
    chars_to_string(&out)
}

/// What a `$` escape of the given kind produces from the given variable.
pub open spec fn fmt_escape(kind: char, var: VariableV) -> Result<Seq<char>, JavaError>
    decreases var,
{
    if kind == 'L' {
        match var {
            VariableV::Literal(s) => Ok(s),
            _ => Err(JavaError::InvalidVariable),
        }
    } else if kind == 'T' {
        match var {
            VariableV::TypeSpec(t) => Ok(type_chars(t)),
            _ => Err(JavaError::InvalidVariable),
        }
    } else if kind == 'S' {
        match var {
            VariableV::String(s) => Ok(quoted(s)),
            _ => Err(JavaError::InvalidVariable),
        }
    } else if kind == 'N' {
        match var {
            VariableV::Name(s) => Ok(s),
            _ => Err(JavaError::InvalidVariable),
        }
    } else if kind == '$' {
        match var {
            VariableV::Statement(sv) => match stmt_fmt(sv) {
                Ok(lines) => Ok(join_seqs(lines, " "@)),
                Err(e) => Err(e),
            },
            _ => Err(JavaError::InvalidVariable),
        }
    } else {
        Err(JavaError::InvalidEscape)
    }
}

/// The text a format string produces from position `fi` on, consuming
/// variables from position `vi` on. Plain characters pass through; a `$`
/// followed by an escape kind consumes one variable.
pub open spec fn fmt_part_from(format: Seq<char>, vars: Seq<VariableV>, fi: int, vi: int) -> Result<
    Seq<char>,
    JavaError,
>
    decreases vars, format.len() - fi,
{
    if fi < 0 || fi >= format.len() {
        Ok(Seq::empty())
    } else if format[fi] == '$' {
        if fi + 1 >= format.len() {
            Err(JavaError::InvalidEscape)
        } else if vi < 0 || vi >= vars.len() {
            Err(JavaError::VariableUnderflow)
        } else {
            match fmt_escape(format[fi + 1], vars[vi]) {
                Err(e) => Err(e),
                Ok(h) => match fmt_part_from(format, vars, fi + 2, vi + 1) {
                    Err(e) => Err(e),
                    Ok(t) => Ok(h + t),
                },
            }
        }
    } else {
        match fmt_part_from(format, vars, fi + 1, vi) {
            Err(e) => Err(e),
            Ok(t) => Ok(seq![format[fi]] + t),
        }
    }
}

/// The lines a statement formats to, processing parts from position `i` on.
/// `cur` is the line being assembled and `has` says whether it has received
/// any segment since the last break.
pub open spec fn stmt_lines(
    parts: Seq<StatementPartV>,
    i: int,
    cur: Seq<char>,
    has: bool,
) -> Result<Seq<Seq<char>>, JavaError>
    decreases parts, parts.len() - i,
{
    if i < 0 || i >= parts.len() {
        Ok(
            if has {
                seq![cur]
            } else {
                Seq::empty()
            },
        )
    } else {
        match parts[i] {
            StatementPartV::Spacing => match stmt_lines(parts, i + 1, Seq::empty(), false) {
                Err(e) => Err(e),
                Ok(rest) => Ok(seq![cur] + rest),
            },
            StatementPartV::Literal(s) => stmt_lines(parts, i + 1, cur + s, true),
            StatementPartV::Format(f, vs) => match fmt_part_from(f, vs, 0, 0) {
                Err(e) => Err(e),
                Ok(p) => stmt_lines(parts, i + 1, cur + p, true),
            },
            StatementPartV::Statement(sv) => match stmt_fmt(sv) {
                Err(e) => Err(e),
                Ok(lines) => stmt_lines(parts, i + 1, cur + join_seqs(lines, " "@), true),
            },
        }
    }
}

/// The lines a statement formats to.
pub open spec fn stmt_fmt(s: StatementV) -> Result<Seq<Seq<char>>, JavaError>
    decreases s,
{
    stmt_lines(s.parts, 0, Seq::empty(), false)
}

fn fmt_escape_exec(kind: char, var: &Variable, out: &mut Vec<char>) -> (r: Result<(), JavaError>)
    ensures
        match fmt_escape(kind, var_v(*var)) {
            Ok(h) => r matches Ok(u) && final(out)@ == old(out)@ + h,
            Err(e) => r matches Err(e2) && e2 == e,
        },
    decreases *var,
{
    if kind == 'L' {
        match var {
            Variable::Literal(s) => {
                push_str_chars(out, s.as_str());
                Ok(())
            },
            _ => Err(JavaError::InvalidVariable),
        }
    } else if kind == 'T' {
        match var {
            Variable::TypeSpec(t) => {
                let mut piece = typespec_text(t);
                out.append(&mut piece);
                Ok(())
            },
            _ => Err(JavaError::InvalidVariable),
        }
    } else if kind == 'S' {
        match var {
            Variable::String(s) => {
                let q = java_quote_string(s.as_str());
                push_str_chars(out, q.as_str());
                Ok(())
            },
            _ => Err(JavaError::InvalidVariable),
        }
    } else if kind == 'N' {
        match var {
            Variable::Name(s) => {
                push_str_chars(out, s.as_str());
                Ok(())
            },
            _ => Err(JavaError::InvalidVariable),
        }
    } else if kind == '$' {
        match var {
            Variable::Statement(st) => match st.format() {
                Ok(lines) => {
                    let mut piece = join_strings(&lines, " ");
                    out.append(&mut piece);
                    Ok(())
                },
                Err(e) => Err(e),
            },
            _ => Err(JavaError::InvalidVariable),
        }
    } else {
        Err(JavaError::InvalidEscape)
    }
}

/// Expand a format string against its variables.
fn format_statement_part_format(format: &String, variables: &Vec<Variable>) -> (r: Result<
    String,
    JavaError,
>)
    ensures
        match fmt_part_from(format@, vars_v(variables@), 0, 0) {
            Ok(cs) => r matches Ok(s) && s@ == cs,
            Err(e) => r matches Err(e2) && e2 == e,
        },
    decreases *variables,
{
    let fchars = str_chars(format.as_str());
    let ghost vsv = vars_v(variables@);
    let mut out: Vec<char> = Vec::new();
    let mut fi: usize = 0;
    let mut vi: usize = 0;
    while fi < fchars.len()
        invariant
            fchars@ == format@,
            vsv == vars_v(variables@),
            fi <= fchars@.len(),
            vi <= vsv.len(),
            match fmt_part_from(format@, vsv, fi as int, vi as int) {
                Ok(cs) => fmt_part_from(format@, vsv, 0, 0) matches Ok(all) && all == out@ + cs,
                Err(e) => fmt_part_from(format@, vsv, 0, 0) matches Err(e2) && e2 == e,
            },
        decreases fchars@.len() - fi,
    {
        let c = fchars[fi];
        if c == '$' {
            if fi + 1 >= fchars.len() {
                return Err(JavaError::InvalidEscape);
            }
            let kind = fchars[fi + 1];
            if vi >= variables.len() {
                proof {
                    broadcast use lemma_vars_v_len;

                }
                return Err(JavaError::VariableUnderflow);
            }
            proof {
                broadcast use lemma_vars_v_len, lemma_vars_v_index;

                assert(vsv[vi as int] == var_v(variables@[vi as int]));
            }
            let var = &variables[vi];
            let ghost pre = out@;
            match fmt_escape_exec(kind, var, &mut out) {
                Ok(u) => {},
                Err(e) => {
                    return Err(e);
                },
            }
            proof {
                let h = fmt_escape(kind, var_v(variables@[vi as int]))->Ok_0;
                match fmt_part_from(format@, vsv, fi + 2, vi + 1) {
                    Ok(cs) => {
                        crate::text::lemma_add3(pre, h, cs);
                    },
                    Err(e) => {},
                }
            }
            fi = fi + 2;
            vi = vi + 1;
        } else {
            let ghost pre = out@;
            out.push(c);
            proof {
                assert(out@ == pre + seq![c]);
                match fmt_part_from(format@, vsv, fi + 1, vi as int) {
                    Ok(cs) => {
                        crate::text::lemma_add3(pre, seq![c], cs);
                    },
                    Err(e) => {},
                }
            }
            fi = fi + 1;
        }
    }
    proof {
        assert(fmt_part_from(format@, vsv, fi as int, vi as int) == Ok::<Seq<char>, JavaError>(
            Seq::empty(),
        ));
        assert(out@ + Seq::<char>::empty() =~= out@);
    }
    Ok(chars_to_string(&out))
}

impl Statement {
    /// Format this statement into its lines.
    pub fn format(&self) -> (r: Result<Vec<String>, JavaError>)
        ensures
            match stmt_fmt(self@) {
                Ok(lines) => r matches Ok(v) && v.deep_view() == lines,
                Err(e) => r matches Err(e2) && e2 == e,
            },
        decreases *self,
    {
        let ghost pv = parts_v(self.parts@);
        let mut out: Vec<String> = Vec::new();
        let mut cur: Vec<char> = Vec::new();
        let mut has: bool = false;
        let mut i: usize = 0;
        while i < self.parts.len()
            invariant
                pv == parts_v(self.parts@),
                i <= self.parts@.len(),
                match stmt_lines(pv, i as int, cur@, has) {
                    Ok(rest) => stmt_fmt(self@) matches Ok(all) && all == out.deep_view() + rest,
                    Err(e) => stmt_fmt(self@) matches Err(e2) && e2 == e,
                },
            decreases self.parts@.len() - i,
        {
            proof {
                broadcast use lemma_parts_v_len, lemma_parts_v_index;

                assert(pv[i as int] == part_v(self.parts@[i as int]));
            }
            let ghost out0 = out.deep_view();
            match &self.parts[i] {
                StatementPart::Spacing => {
                    let line = chars_to_string(&cur);
                    out.push(line);
                    cur = Vec::new();
                    has = false;
                    proof {
                        assert(out.deep_view() =~= out0.push(line@));
                        match stmt_lines(pv, i + 1, cur@, has) {
                            Ok(rest) => {
                                assert(out0 + (seq![line@] + rest) =~= out0.push(line@) + rest);
                            },
                            Err(e) => {},
                        }
                    }
                },
                StatementPart::Literal(s) => {
                    push_str_chars(&mut cur, s.as_str());
                    has = true;
                },
                StatementPart::Format(f, vars) => {
                    match format_statement_part_format(f, vars) {
                        Ok(piece) => {
                            push_str_chars(&mut cur, piece.as_str());
                            has = true;
                        },
                        Err(e) => {
                            return Err(e);
                        },
                    }
                },
                StatementPart::Statement(st) => {
                    match st.format() {
                        Ok(lines) => {
                            let mut piece = join_strings(&lines, " ");
                            cur.append(&mut piece);
                            has = true;
                        },
                        Err(e) => {
                            return Err(e);
                        },
                    }
                },
            }
            i = i + 1;
        }
        proof {
            broadcast use lemma_parts_v_len;

            assert(pv.len() == self.parts@.len());
        }
        if has {
            let line = chars_to_string(&cur);
            let ghost out0 = out.deep_view();
            out.push(line);
            proof {
                assert(out.deep_view() =~= out0.push(line@));
                assert(out0.push(line@) =~= out0 + seq![line@]);
            }
        } else {
            proof {
                assert(out.deep_view() + Seq::<Seq<char>>::empty() =~= out.deep_view());
            }
        }
        Ok(out)
    }
}

/// The mathematical content of one section of a block.
#[verifier::ext_equal]
pub ghost enum SectionV {
    Block(BlockV),
    Statement(StatementV),
    Spacing,
}

/// The mathematical content of a section list.
#[verifier::ext_equal]
pub ghost struct SectionsV {
    pub sections: Seq<SectionV>,
}

/// The mathematical content of a block.
#[verifier::ext_equal]
pub ghost struct BlockV {
    pub open_stmt: Option<StatementV>,
    pub close_stmt: Option<StatementV>,
    pub sections: SectionsV,
}

/// One section of a block: a nested block, a statement, or an empty line.
#[derive(Debug)]
pub enum Section {
    Block(Block),
    Statement(Statement),
    Spacing,
}

/// An ordered list of sections.
#[derive(Debug)]
pub struct Sections {
    sections: Vec<Section>,
}

/// A braced block with an optional opening and closing statement.
#[derive(Debug)]
pub struct Block {
    open: Option<Statement>,
    close: Option<Statement>,
    sections: Sections,
}

/// The content of one section.
pub open spec fn section_v(s: Section) -> SectionV
    decreases s,
{
    match s {
        Section::Block(b) => SectionV::Block(block_v(b)),
        Section::Statement(st) => SectionV::Statement(stmt_v(st)),
        Section::Spacing => SectionV::Spacing,
    }
}

/// The content of a sequence of sections.
pub open spec fn sections_v(ss: Seq<Section>) -> Seq<SectionV>
    decreases ss,
{
    if ss.len() == 0 {
        Seq::empty()
    } else {
        seq![section_v(ss[0])] + sections_v(ss.drop_first())
    }
}

/// The content of a section list.
pub closed spec fn secs_v(s: Sections) -> SectionsV
    decreases s,
{
    SectionsV { sections: sections_v(s.sections@) }
}

/// The content of a block.
pub closed spec fn block_v(b: Block) -> BlockV
    decreases b,
{
    BlockV {
        open_stmt: match b.open {
            Some(o) => Some(stmt_v(o)),
            None => None,
        },
        close_stmt: match b.close {
            Some(c) => Some(stmt_v(c)),
            None => None,
        },
        sections: secs_v(b.sections),
    }
}

impl View for Sections {
    type V = SectionsV;

    open spec fn view(&self) -> SectionsV {
        secs_v(*self)
    }
}

impl View for Block {
    type V = BlockV;

    open spec fn view(&self) -> BlockV {
        block_v(*self)
    }
}

/// Element views line up with the elements.
pub broadcast proof fn lemma_sections_v_len(ss: Seq<Section>)
    ensures
        (#[trigger] sections_v(ss)).len() == ss.len(),
    decreases ss.len(),
{
    if ss.len() > 0 {
        lemma_sections_v_len(ss.drop_first());
    }
}

/// The view of the sequence indexes to the view of the element.
pub broadcast proof fn lemma_sections_v_index(ss: Seq<Section>, i: int)
    requires
        0 <= i < ss.len(),
    ensures
        #[trigger] sections_v(ss)[i] == section_v(ss[i]),
    decreases ss.len(),
{
    lemma_sections_v_len(ss);
    if i > 0 {
        lemma_sections_v_index(ss.drop_first(), i - 1);
    }
}

fn clone_sections_vec(ss: &Vec<Section>) -> (r: Vec<Section>)
    ensures
        sections_v(r@) == sections_v(ss@),
    decreases *ss,
{
    let mut out: Vec<Section> = Vec::new();
    let mut i: usize = 0;
    while i < ss.len()
        invariant
            i <= ss@.len(),
            out@.len() == i,
            forall|j: int| 0 <= j < i ==> section_v(out@[j]) == section_v(ss@[j]),
        decreases ss@.len() - i,
    {
        out.push(ss[i].clone());
        i = i + 1;
    }
    proof {
        broadcast use lemma_sections_v_len, lemma_sections_v_index;

        assert(sections_v(out@) =~= sections_v(ss@));
    }
    out
}

impl Clone for Section {
    fn clone(&self) -> (r: Self)
        ensures
            section_v(r) == section_v(*self),
        decreases *self,
    {
        match self {
            Section::Block(b) => Section::Block(b.clone()),
            Section::Statement(st) => Section::Statement(st.clone()),
            Section::Spacing => Section::Spacing,
        }
    }
}

impl Clone for Sections {
    fn clone(&self) -> (r: Self)
        ensures
            r@ == self@,
        decreases *self,
    {
        let r = Sections { sections: clone_sections_vec(&self.sections) };
        proof {
            assert(r@ =~= self@);
        }
        r
    }
}

impl Clone for Block {
    fn clone(&self) -> (r: Self)
        ensures
            r@ == self@,
        decreases *self,
    {
        let open = match &self.open {
            Some(o) => Some(o.clone()),
            None => None,
        };
        let close = match &self.close {
            Some(c) => Some(c.clone()),
            None => None,
        };
        let r = Block { open, close, sections: self.sections.clone() };
        proof {
            assert(r@ =~= self@);
        }
        r
    }
}

/// Each formatted line of a statement placed in a section: the current
/// indentation, the line, and a closing semicolon.
pub open spec fn stmt_section_lines(lines: Seq<Seq<char>>, current: Seq<char>) -> Seq<Seq<char>> {
    Seq::new(lines.len(), |k: int| current + lines[k] + seq![';'])
}

/// The opening lines of a block: every line of the opening statement
/// indented, the last one followed by ` {`.
pub open spec fn open_header_lines(lines: Seq<Seq<char>>, current: Seq<char>) -> Seq<Seq<char>> {
    Seq::new(
        lines.len(),
        |k: int|
            if k + 1 == lines.len() {
                current + lines[k] + seq![' ', '{']
            } else {
                current + lines[k]
            },
    )
}

/// The lines the sections from position `i` on format to, at the given
/// indentation. A statement becomes `current` + line + `;` for each of its
/// lines, a block formats recursively, and a spacing becomes an empty line.
pub open spec fn secs_lines(ss: Seq<SectionV>, i: int, current: Seq<char>, indent: Seq<char>) -> Result<
    Seq<Seq<char>>,
    JavaError,
>
    decreases ss, ss.len() - i,
{
    if i < 0 || i >= ss.len() {
        Ok(Seq::empty())
    } else {
        match ss[i] {
            SectionV::Statement(sv) => match stmt_fmt(sv) {
                Err(e) => Err(e),
                Ok(lines) => match secs_lines(ss, i + 1, current, indent) {
                    Err(e) => Err(e),
                    Ok(rest) => Ok(stmt_section_lines(lines, current) + rest),
                },
            },
            SectionV::Block(bv) => match block_lines(bv, current, indent) {
                Err(e) => Err(e),
                Ok(bl) => match secs_lines(ss, i + 1, current, indent) {
                    Err(e) => Err(e),
                    Ok(rest) => Ok(bl + rest),
                },
            },
            SectionV::Spacing => match secs_lines(ss, i + 1, current, indent) {
                Err(e) => Err(e),
                Ok(rest) => Ok(seq![Seq::<char>::empty()] + rest),
            },
        }
    }
}

/// The lines a block formats to: an opening line (or lines), its sections
/// one indentation step deeper, and a closing line.
pub open spec fn block_lines(b: BlockV, current: Seq<char>, indent: Seq<char>) -> Result<
    Seq<Seq<char>>,
    JavaError,
>
    decreases b,
{
    let header = match b.open_stmt {
        Some(o) => match stmt_fmt(o) {
            Err(e) => Err(e),
            Ok(olines) => Ok(open_header_lines(olines, current)),
        },
        None => Ok(seq![current + seq!['{']]),
    };
    match header {
        Err(e) => Err(e),
        Ok(h) => match secs_lines(b.sections.sections, 0, current + indent, indent) {
            Err(e) => Err(e),
            Ok(body) => {
                let tail = match b.close_stmt {
                    Some(c) => match stmt_fmt(c) {
                        Err(e) => Err(e),
                        Ok(clines) => Ok(
                            seq![current + seq!['}', ' '] + join_seqs(clines, " "@) + seq![';']],
                        ),
                    },
                    None => Ok(seq![current + seq!['}']]),
                };
                match tail {
                    Err(e) => Err(e),
                    Ok(t) => Ok(h + body + t),
                }
            },
        },
    }
}

fn emit_statement_lines(lines: &Vec<String>, current: &str, out: &mut Vec<String>)
    ensures
        final(out).deep_view() == old(out).deep_view() + stmt_section_lines(
            lines.deep_view(),
            current@,
        ),
{
    let ghost target = stmt_section_lines(lines.deep_view(), current@);
    let mut k: usize = 0;
    while k < lines.len()
        invariant
            k <= lines@.len(),
            target == stmt_section_lines(lines.deep_view(), current@),
            out.deep_view() =~= old(out).deep_view() + target.subrange(0, k as int),
        decreases lines@.len() - k,
    {
        let mut line: Vec<char> = Vec::new();
        push_str_chars(&mut line, current);
        push_str_chars(&mut line, lines[k].as_str());
        line.push(';');
        let ghost pre = out.deep_view();
        out.push(chars_to_string(&line));
        proof {
            assert(lines.deep_view()[k as int] == lines@[k as int]@);
            assert(out.deep_view() =~~= pre.push(target[k as int]));
            assert(out.deep_view() =~= old(out).deep_view() + target.subrange(0, k + 1));
        }
        k = k + 1;
    }
    proof {
        assert(target.subrange(0, target.len() as int) =~= target);
    }
}

fn emit_open_lines(olines: &Vec<String>, current: &str, out: &mut Vec<String>)
    ensures
        final(out).deep_view() == old(out).deep_view() + open_header_lines(
            olines.deep_view(),
            current@,
        ),
{
    let ghost target = open_header_lines(olines.deep_view(), current@);
    let mut k: usize = 0;
    while k < olines.len()
        invariant
            k <= olines@.len(),
            target == open_header_lines(olines.deep_view(), current@),
            out.deep_view() =~= old(out).deep_view() + target.subrange(0, k as int),
        decreases olines@.len() - k,
    {
        let mut line: Vec<char> = Vec::new();
        push_str_chars(&mut line, current);
        push_str_chars(&mut line, olines[k].as_str());
        if k + 1 == olines.len() {
            line.push(' ');
            line.push('{');
        }
        let ghost pre = out.deep_view();
        out.push(chars_to_string(&line));
        proof {
            assert(olines.deep_view()[k as int] == olines@[k as int]@);
            assert(out.deep_view() =~~= pre.push(target[k as int]));
            assert(out.deep_view() =~= old(out).deep_view() + target.subrange(0, k + 1));
        }
        k = k + 1;
    }
    proof {
        assert(target.subrange(0, target.len() as int) =~= target);
    }
}

impl Sections {
    /// An empty section list.
    pub fn new() -> (r: Sections)
        ensures
            r@ == (SectionsV { sections: Seq::empty() }),
    {
        let r = Sections { sections: Vec::new() };
        proof {
            assert(r@ =~= (SectionsV { sections: Seq::empty() }));
        }
        r
    }

    /// Append a statement section.
    pub fn push_statement(&mut self, statement: &Statement)
        ensures
            final(self)@ == (SectionsV {
                sections: old(self)@.sections.push(SectionV::Statement(statement@)),
            }),
    {
        let ghost pre = self.sections@;
        self.sections.push(Section::Statement(statement.clone()));
        proof {
            broadcast use lemma_sections_v_len, lemma_sections_v_index;

            assert(sections_v(self.sections@) =~= sections_v(pre).push(
                SectionV::Statement(statement@),
            ));
        }
    }

    /// Append an empty line.
    pub fn push_spacing(&mut self)
        ensures
            final(self)@ == (SectionsV { sections: old(self)@.sections.push(SectionV::Spacing) }),
    {
        let ghost pre = self.sections@;
        self.sections.push(Section::Spacing);
        proof {
            broadcast use lemma_sections_v_len, lemma_sections_v_index;

            assert(sections_v(self.sections@) =~= sections_v(pre).push(SectionV::Spacing));
        }
    }

    /// Append a nested block.
    pub fn push_block(&mut self, block: &Block)
        ensures
            final(self)@ == (SectionsV {
                sections: old(self)@.sections.push(SectionV::Block(block@)),
            }),
    {
        let ghost pre = self.sections@;
        self.sections.push(Section::Block(block.clone()));
        proof {
            broadcast use lemma_sections_v_len, lemma_sections_v_index;

            assert(sections_v(self.sections@) =~= sections_v(pre).push(SectionV::Block(block@)));
        }
    }

    /// Append every section of another list.
    pub fn extend(&mut self, sections: &Sections)
        ensures
            final(self)@ == (SectionsV {
                sections: old(self)@.sections + sections@.sections,
            }),
    {
        let ghost pre = self.sections@;
        let mut other = clone_sections_vec(&sections.sections);
        let ghost otherv = other@;
        self.sections.append(&mut other);
        proof {
            broadcast use lemma_sections_v_len, lemma_sections_v_index;

            assert(sections_v(self.sections@) =~= sections_v(pre) + sections_v(otherv));
        }
    }

    /// Format every section at the given indentation.
    pub fn format(&self, current: &str, indent: &str) -> (r: Result<Vec<String>, JavaError>)
        ensures
            match secs_lines(self@.sections, 0, current@, indent@) {
                Ok(lines) => r matches Ok(v) && v.deep_view() == lines,
                Err(e) => r matches Err(e2) && e2 == e,
            },
        decreases *self,
    {
        let ghost ssv = sections_v(self.sections@);
        let mut out: Vec<String> = Vec::new();
        let mut i: usize = 0;
        while i < self.sections.len()
            invariant
                ssv == sections_v(self.sections@),
                i <= self.sections@.len(),
                match secs_lines(ssv, i as int, current@, indent@) {
                    Ok(rest) => secs_lines(ssv, 0, current@, indent@) matches Ok(all) && all
                        == out.deep_view() + rest,
                    Err(e) => secs_lines(ssv, 0, current@, indent@) matches Err(e2) && e2 == e,
                },
            decreases self.sections@.len() - i,
        {
            proof {
                broadcast use lemma_sections_v_len, lemma_sections_v_index;

                assert(ssv[i as int] == section_v(self.sections@[i as int]));
            }
            let ghost out0 = out.deep_view();
            match &self.sections[i] {
                Section::Statement(statement) => {
                    match statement.format() {
                        Ok(lines) => {
                            emit_statement_lines(&lines, current, &mut out);
                            proof {
                                let h = stmt_section_lines(lines.deep_view(), current@);
                                match secs_lines(ssv, i + 1, current@, indent@) {
                                    Ok(rest) => {
                                        assert(out0 + (h + rest) =~= (out0 + h) + rest);
                                    },
                                    Err(e) => {},
                                }
                            }
                        },
                        Err(e) => {
                            return Err(e);
                        },
                    }
                },
                Section::Block(block) => {
                    match block.format(current, indent) {
                        Ok(lines) => {
                            let ghost h = lines.deep_view();
                            let mut lines = lines;
                            out.append(&mut lines);
                            proof {
                                assert(out.deep_view() =~= out0 + h);
                                match secs_lines(ssv, i + 1, current@, indent@) {
                                    Ok(rest) => {
                                        assert(out0 + (h + rest) =~= (out0 + h) + rest);
                                    },
                                    Err(e) => {},
                                }
                            }
                        },
                        Err(e) => {
                            return Err(e);
                        },
                    }
                },
                Section::Spacing => {
                    out.push(String::new());
                    proof {
                        let h = seq![Seq::<char>::empty()];
                        assert(out.deep_view() =~= out0 + h);
                        match secs_lines(ssv, i + 1, current@, indent@) {
                            Ok(rest) => {
                                assert(out0 + (h + rest) =~= (out0 + h) + rest);
                            },
                            Err(e) => {},
                        }
                    }
                },
            }
            i = i + 1;
        }
        proof {
            broadcast use lemma_sections_v_len;

            assert(ssv.len() == self.sections@.len());
            assert(out.deep_view() + Seq::<Seq<char>>::empty() =~= out.deep_view());
        }
        Ok(out)
    }
}

impl Block {
    /// An empty block with no opening or closing statement.
    pub fn new() -> (r: Block)
        ensures
            r@ == (BlockV {
                open_stmt: None,
                close_stmt: None,
                sections: SectionsV { sections: Seq::empty() },
            }),
    {
        let r = Block { open: None, close: None, sections: Sections::new() };
        proof {
            assert(r@ =~= (BlockV {
                open_stmt: None,
                close_stmt: None,
                sections: SectionsV { sections: Seq::empty() },
            }));
        }
        r
    }

    /// Set the opening statement.
    pub fn open(&mut self, open: Statement)
        ensures
            final(self)@ == (BlockV { open_stmt: Some(open@), ..old(self)@ }),
    {
        self.open = Some(open);
        proof {
            assert(block_v(*self) =~= (BlockV { open_stmt: block_v(*self).open_stmt, ..old(self)@ }));
        }
    }

    /// Set the closing statement.
    pub fn close(&mut self, close: Statement)
        ensures
            final(self)@ == (BlockV { close_stmt: Some(close@), ..old(self)@ }),
    {
        self.close = Some(close);
        proof {
            assert(block_v(*self) =~= (BlockV {
                close_stmt: block_v(*self).close_stmt,
                ..old(self)@
            }));
        }
    }

    /// Append a statement section.
    pub fn push_statement(&mut self, statement: &Statement)
        ensures
            final(self)@ == (BlockV {
                sections: SectionsV {
                    sections: old(self)@.sections.sections.push(SectionV::Statement(statement@)),
                },
                ..old(self)@
            }),
    {
        self.sections.push_statement(statement);
        proof {
            assert(self@ =~= (BlockV {
                sections: SectionsV {
                    sections: old(self)@.sections.sections.push(SectionV::Statement(statement@)),
                },
                ..old(self)@
            }));
        }
    }

    /// Append an empty line.
    pub fn push_spacing(&mut self)
        ensures
            final(self)@ == (BlockV {
                sections: SectionsV {
                    sections: old(self)@.sections.sections.push(SectionV::Spacing),
                },
                ..old(self)@
            }),
    {
        self.sections.push_spacing();
        proof {
            assert(self@ =~= (BlockV {
                sections: SectionsV {
                    sections: old(self)@.sections.sections.push(SectionV::Spacing),
                },
                ..old(self)@
            }));
        }
    }

    /// Append a nested block.
    pub fn push_block(&mut self, block: &Block)
        ensures
            final(self)@ == (BlockV {
                sections: SectionsV {
                    sections: old(self)@.sections.sections.push(SectionV::Block(block@)),
                },
                ..old(self)@
            }),
    {
        self.sections.push_block(block);
        proof {
            assert(self@ =~= (BlockV {
                sections: SectionsV {
                    sections: old(self)@.sections.sections.push(SectionV::Block(block@)),
                },
                ..old(self)@
            }));
        }
    }

    /// Append every section of a list.
    pub fn extend(&mut self, sections: &Sections)
        ensures
            final(self)@ == (BlockV {
                sections: SectionsV {
                    sections: old(self)@.sections.sections + sections@.sections,
                },
                ..old(self)@
            }),
    {
        self.sections.extend(sections);
        proof {
            assert(self@ =~= (BlockV {
                sections: SectionsV {
                    sections: old(self)@.sections.sections + sections@.sections,
                },
                ..old(self)@
            }));
        }
    }

    /// Format this block at the given indentation.
    pub fn format(&self, current: &str, indent: &str) -> (r: Result<Vec<String>, JavaError>)
        ensures
            match block_lines(self@, current@, indent@) {
                Ok(lines) => r matches Ok(v) && v.deep_view() == lines,
                Err(e) => r matches Err(e2) && e2 == e,
            },
        decreases *self,
    {
        let mut out: Vec<String> = Vec::new();
        match &self.open {
            Some(o) => {
                match o.format() {
                    Ok(olines) => {
                        emit_open_lines(&olines, current, &mut out);
                    },
                    Err(e) => {
                        return Err(e);
                    },
                }
            },
            None => {
                let mut line: Vec<char> = Vec::new();
                push_str_chars(&mut line, current);
                line.push('{');
                out.push(chars_to_string(&line));
                proof {
                    assert(out.deep_view() =~~= seq![current@ + seq!['{']]);
                }
            },
        }
        let ghost header = out.deep_view();
        let mut deeper: Vec<char> = Vec::new();
        push_str_chars(&mut deeper, current);
        push_str_chars(&mut deeper, indent);
        let deeper_str = chars_to_string(&deeper);
        match self.sections.format(deeper_str.as_str(), indent) {
            Ok(body) => {
                let ghost bodyv = body.deep_view();
                let mut body = body;
                out.append(&mut body);
                proof {
                    assert(out.deep_view() =~= header + bodyv);
                }
            },
            Err(e) => {
                return Err(e);
            },
        }
        let ghost with_body = out.deep_view();
        match &self.close {
            Some(c) => {
                match c.format() {
                    Ok(clines) => {
                        let joined = join_strings(&clines, " ");
                        let mut line: Vec<char> = Vec::new();
                        push_str_chars(&mut line, current);
                        line.push('}');
                        line.push(' ');
                        let mut joined = joined;
                        line.append(&mut joined);
                        line.push(';');
                        out.push(chars_to_string(&line));
                        proof {
                            assert(out.deep_view() =~~= with_body + seq![
                                current@ + seq!['}', ' '] + join_seqs(clines.deep_view(), " "@)
                                    + seq![';'],
                            ]);
                        }
                    },
                    Err(e) => {
                        return Err(e);
                    },
                }
            },
            None => {
                let mut line: Vec<char> = Vec::new();
                push_str_chars(&mut line, current);
                line.push('}');
                out.push(chars_to_string(&line));
                proof {
                    assert(out.deep_view() =~~= with_body + seq![current@ + seq!['}']]);
                }
            },
        }
        proof {
            match block_lines(self@, current@, indent@) {
                Ok(lines) => {
                    assert(out.deep_view() =~= lines);
                },
                Err(e) => {},
            }
        }
        Ok(out)
    }
}

/// The mathematical content of a field description.
#[verifier::ext_equal]
pub ghost struct FieldSpecV {
    pub modifiers: Seq<Modifier>,
    pub type_: TypeSpecV,
    pub name: Seq<char>,
}

/// The mathematical content of an annotation.
#[verifier::ext_equal]
pub ghost struct AnnotationSpecV {
    pub type_: TypeSpecV,
    pub arguments: Seq<StatementV>,
}

/// The mathematical content of a method or constructor argument.
#[verifier::ext_equal]
pub ghost struct ArgumentSpecV {
    pub modifiers: Seq<Modifier>,
    pub type_: TypeSpecV,
    pub name: Seq<char>,
    pub annotations: Seq<AnnotationSpecV>,
}

/// The mathematical content of a constructor description.
#[verifier::ext_equal]
pub ghost struct ConstructorSpecV {
    pub modifiers: Seq<Modifier>,
    pub annotations: Seq<AnnotationSpecV>,
    pub arguments: Seq<ArgumentSpecV>,
    pub sections: SectionsV,
}

/// The mathematical content of a method description.
#[verifier::ext_equal]
pub ghost struct MethodSpecV {
    pub modifiers: Seq<Modifier>,
    pub name: Seq<char>,
    pub annotations: Seq<AnnotationSpecV>,
    pub arguments: Seq<ArgumentSpecV>,
    pub returns: Option<TypeSpecV>,
    pub sections: SectionsV,
}

/// The mathematical content of an interface description.
#[verifier::ext_equal]
pub ghost struct InterfaceSpecV {
    pub modifiers: Seq<Modifier>,
    pub name: Seq<char>,
    pub annotations: Seq<AnnotationSpecV>,
    pub elements: Seq<ElementSpecV>,
}

/// The mathematical content of a class description.
#[verifier::ext_equal]
pub ghost struct ClassSpecV {
    pub modifiers: Seq<Modifier>,
    pub name: Seq<char>,
    pub annotations: Seq<AnnotationSpecV>,
    pub fields: Seq<FieldSpecV>,
    pub constructors: Seq<ConstructorSpecV>,
    pub methods: Seq<MethodSpecV>,
    pub elements: Seq<ElementSpecV>,
}

/// The mathematical content of a top-level element.
#[verifier::ext_equal]
pub ghost enum ElementSpecV {
    Class(ClassSpecV),
    Interface(InterfaceSpecV),
}

/// The mathematical content of a source file description.
#[verifier::ext_equal]
pub ghost struct FileSpecV {
    pub package: Seq<char>,
    pub elements: Seq<ElementSpecV>,
}

/// An argument position that only carries modifiers.
#[derive(Debug)]
pub struct MethodArgument {
    pub modifiers: Modifiers,
}

/// A field of a class.
#[derive(Debug)]
pub struct FieldSpec {
    pub modifiers: Modifiers,
    pub type_: TypeSpec,
    pub name: String,
}

/// An annotation on a declaration.
#[derive(Debug)]
pub struct AnnotationSpec {
    pub type_: TypeSpec,
    pub arguments: Vec<Statement>,
}

/// An argument of a method or constructor.
#[derive(Debug)]
pub struct ArgumentSpec {
    pub modifiers: Modifiers,
    pub type_: TypeSpec,
    pub name: String,
    pub annotations: Vec<AnnotationSpec>,
}

/// A constructor of a class.
#[derive(Debug)]
pub struct ConstructorSpec {
    pub modifiers: Modifiers,
    pub annotations: Vec<AnnotationSpec>,
    pub arguments: Vec<ArgumentSpec>,
    pub sections: Sections,
}

/// A method of a class or interface.
#[derive(Debug)]
pub struct MethodSpec {
    pub modifiers: Modifiers,
    pub name: String,
    pub annotations: Vec<AnnotationSpec>,
    pub arguments: Vec<ArgumentSpec>,
    pub returns: Option<TypeSpec>,
    pub sections: Sections,
}

/// An interface declaration.
#[derive(Debug)]
pub struct InterfaceSpec {
    pub modifiers: Modifiers,
    pub name: String,
    pub annotations: Vec<AnnotationSpec>,
    pub elements: Vec<ElementSpec>,
}

/// A class declaration.
#[derive(Debug)]
pub struct ClassSpec {
    pub modifiers: Modifiers,
    pub name: String,
    pub annotations: Vec<AnnotationSpec>,
    pub fields: Vec<FieldSpec>,
    pub constructors: Vec<ConstructorSpec>,
    pub methods: Vec<MethodSpec>,
    pub elements: Vec<ElementSpec>,
}

/// A top-level element of a file: a class or an interface.
#[derive(Debug)]
pub enum ElementSpec {
    Class(ClassSpec),
    Interface(InterfaceSpec),
}

/// A Java source file description.
#[derive(Debug)]
pub struct FileSpec {
    pub package: String,
    pub elements: Vec<ElementSpec>,
}

/// The content of a field description.
pub open spec fn field_v(f: FieldSpec) -> FieldSpecV
    decreases f,
{
    FieldSpecV { modifiers: f.modifiers@, type_: typespec_v(f.type_), name: f.name@ }
}

/// The content of an annotation.
pub open spec fn anno_v(a: AnnotationSpec) -> AnnotationSpecV
    decreases a,
{
    AnnotationSpecV { type_: typespec_v(a.type_), arguments: stmts_v(a.arguments@) }
}

/// The content of an argument description.
pub open spec fn argspec_v(a: ArgumentSpec) -> ArgumentSpecV
    decreases a,
{
    ArgumentSpecV {
        modifiers: a.modifiers@,
        type_: typespec_v(a.type_),
        name: a.name@,
        annotations: annos_v(a.annotations@),
    }
}

/// The content of a constructor description.
pub open spec fn ctor_v(c: ConstructorSpec) -> ConstructorSpecV
    decreases c,
{
    ConstructorSpecV {
        modifiers: c.modifiers@,
        annotations: annos_v(c.annotations@),
        arguments: argspecs_v(c.arguments@),
        sections: secs_v(c.sections),
    }
}

/// The content of a method description.
pub open spec fn method_v(m: MethodSpec) -> MethodSpecV
    decreases m,
{
    MethodSpecV {
        modifiers: m.modifiers@,
        name: m.name@,
        annotations: annos_v(m.annotations@),
        arguments: argspecs_v(m.arguments@),
        returns: match m.returns {
            Some(t) => Some(typespec_v(t)),
            None => None,
        },
        sections: secs_v(m.sections),
    }
}

/// The content of an interface declaration.
pub open spec fn iface_v(i: InterfaceSpec) -> InterfaceSpecV
    decreases i,
{
    InterfaceSpecV {
        modifiers: i.modifiers@,
        name: i.name@,
        annotations: annos_v(i.annotations@),
        elements: elems_v(i.elements@),
    }
}

/// The content of a class declaration.
pub open spec fn class_v(c: ClassSpec) -> ClassSpecV
    decreases c,
{
    ClassSpecV {
        modifiers: c.modifiers@,
        name: c.name@,
        annotations: annos_v(c.annotations@),
        fields: fields_v(c.fields@),
        constructors: ctors_v(c.constructors@),
        methods: methods_v(c.methods@),
        elements: elems_v(c.elements@),
    }
}

/// The content of a top-level element.
pub open spec fn elem_v(e: ElementSpec) -> ElementSpecV
    decreases e,
{
    match e {
        ElementSpec::Class(c) => ElementSpecV::Class(class_v(c)),
        ElementSpec::Interface(i) => ElementSpecV::Interface(iface_v(i)),
    }
}

/// The content of a file description.
pub open spec fn file_v(f: FileSpec) -> FileSpecV
    decreases f,
{
    FileSpecV { package: f.package@, elements: elems_v(f.elements@) }
}

/// The content of a sequence of `Statement` values.
pub open spec fn stmts_v(s: Seq<Statement>) -> Seq<StatementV>
    decreases s,
{
    if s.len() == 0 {
        Seq::empty()
    } else {
        seq![stmt_v(s[0])] + stmts_v(s.drop_first())
    }
}

/// Element views line up with the elements.
pub broadcast proof fn lemma_stmts_v_len(s: Seq<Statement>)
    ensures
        (#[trigger] stmts_v(s)).len() == s.len(),
    decreases s.len(),
{
    if s.len() > 0 {
        lemma_stmts_v_len(s.drop_first());
    }
}

/// The view of the sequence indexes to the view of the element.
pub broadcast proof fn lemma_stmts_v_index(s: Seq<Statement>, i: int)
    requires
        0 <= i < s.len(),
    ensures
        #[trigger] stmts_v(s)[i] == stmt_v(s[i]),
    decreases s.len(),
{
    lemma_stmts_v_len(s);
    if i > 0 {
        lemma_stmts_v_index(s.drop_first(), i - 1);
    }
}

fn clone_statements(s: &Vec<Statement>) -> (r: Vec<Statement>)
    ensures
        stmts_v(r@) == stmts_v(s@),
    decreases *s,
{
    let mut out: Vec<Statement> = Vec::new();
    let mut i: usize = 0;
    while i < s.len()
        invariant
            i <= s@.len(),
            out@.len() == i,
            forall|j: int| 0 <= j < i ==> stmt_v(out@[j]) == stmt_v(s@[j]),
        decreases s@.len() - i,
    {
        out.push(s[i].clone());
        i = i + 1;
    }
    proof {
        broadcast use lemma_stmts_v_len, lemma_stmts_v_index;

        assert(stmts_v(out@) =~= stmts_v(s@));
    }
    out
}

/// The content of a sequence of `AnnotationSpec` values.
pub open spec fn annos_v(s: Seq<AnnotationSpec>) -> Seq<AnnotationSpecV>
    decreases s,
{
    if s.len() == 0 {
        Seq::empty()
    } else {
        seq![anno_v(s[0])] + annos_v(s.drop_first())
    }
}

/// Element views line up with the elements.
pub broadcast proof fn lemma_annos_v_len(s: Seq<AnnotationSpec>)
    ensures
        (#[trigger] annos_v(s)).len() == s.len(),
    decreases s.len(),
{
    if s.len() > 0 {
        lemma_annos_v_len(s.drop_first());
    }
}

/// The view of the sequence indexes to the view of the element.
pub broadcast proof fn lemma_annos_v_index(s: Seq<AnnotationSpec>, i: int)
    requires
        0 <= i < s.len(),
    ensures
        #[trigger] annos_v(s)[i] == anno_v(s[i]),
    decreases s.len(),
{
    lemma_annos_v_len(s);
    if i > 0 {
        lemma_annos_v_index(s.drop_first(), i - 1);
    }
}

fn clone_annotations(s: &Vec<AnnotationSpec>) -> (r: Vec<AnnotationSpec>)
    ensures
        annos_v(r@) == annos_v(s@),
    decreases *s,
{
    let mut out: Vec<AnnotationSpec> = Vec::new();
    let mut i: usize = 0;
    while i < s.len()
        invariant
            i <= s@.len(),
            out@.len() == i,
            forall|j: int| 0 <= j < i ==> anno_v(out@[j]) == anno_v(s@[j]),
        decreases s@.len() - i,
    {
        out.push(s[i].clone());
        i = i + 1;
    }
    proof {
        broadcast use lemma_annos_v_len, lemma_annos_v_index;

        assert(annos_v(out@) =~= annos_v(s@));
    }
    out
}

/// The content of a sequence of `ArgumentSpec` values.
pub open spec fn argspecs_v(s: Seq<ArgumentSpec>) -> Seq<ArgumentSpecV>
    decreases s,
{
    if s.len() == 0 {
        Seq::empty()
    } else {
        seq![argspec_v(s[0])] + argspecs_v(s.drop_first())
    }
}

/// Element views line up with the elements.
pub broadcast proof fn lemma_argspecs_v_len(s: Seq<ArgumentSpec>)
    ensures
        (#[trigger] argspecs_v(s)).len() == s.len(),
    decreases s.len(),
{
    if s.len() > 0 {
        lemma_argspecs_v_len(s.drop_first());
    }
}

/// The view of the sequence indexes to the view of the element.
pub broadcast proof fn lemma_argspecs_v_index(s: Seq<ArgumentSpec>, i: int)
    requires
        0 <= i < s.len(),
    ensures
        #[trigger] argspecs_v(s)[i] == argspec_v(s[i]),
    decreases s.len(),
{
    lemma_argspecs_v_len(s);
    if i > 0 {
        lemma_argspecs_v_index(s.drop_first(), i - 1);
    }
}

fn clone_argspecs(s: &Vec<ArgumentSpec>) -> (r: Vec<ArgumentSpec>)
    ensures
        argspecs_v(r@) == argspecs_v(s@),
    decreases *s,
{
    let mut out: Vec<ArgumentSpec> = Vec::new();
    let mut i: usize = 0;
    while i < s.len()
        invariant
            i <= s@.len(),
            out@.len() == i,
            forall|j: int| 0 <= j < i ==> argspec_v(out@[j]) == argspec_v(s@[j]),
        decreases s@.len() - i,
    {
        out.push(s[i].clone());
        i = i + 1;
    }
    proof {
        broadcast use lemma_argspecs_v_len, lemma_argspecs_v_index;

        assert(argspecs_v(out@) =~= argspecs_v(s@));
    }
    out
}

/// The content of a sequence of `FieldSpec` values.
pub open spec fn fields_v(s: Seq<FieldSpec>) -> Seq<FieldSpecV>
    decreases s,
{
    if s.len() == 0 {
        Seq::empty()
    } else {
        seq![field_v(s[0])] + fields_v(s.drop_first())
    }
}

/// Element views line up with the elements.
pub broadcast proof fn lemma_fields_v_len(s: Seq<FieldSpec>)
    ensures
        (#[trigger] fields_v(s)).len() == s.len(),
    decreases s.len(),
{
    if s.len() > 0 {
        lemma_fields_v_len(s.drop_first());
    }
}

/// The view of the sequence indexes to the view of the element.
pub broadcast proof fn lemma_fields_v_index(s: Seq<FieldSpec>, i: int)
    requires
        0 <= i < s.len(),
    ensures
        #[trigger] fields_v(s)[i] == field_v(s[i]),
    decreases s.len(),
{
    lemma_fields_v_len(s);
    if i > 0 {
        lemma_fields_v_index(s.drop_first(), i - 1);
    }
}

fn clone_fields(s: &Vec<FieldSpec>) -> (r: Vec<FieldSpec>)
    ensures
        fields_v(r@) == fields_v(s@),
    decreases *s,
{
    let mut out: Vec<FieldSpec> = Vec::new();
    let mut i: usize = 0;
    while i < s.len()
        invariant
            i <= s@.len(),
            out@.len() == i,
            forall|j: int| 0 <= j < i ==> field_v(out@[j]) == field_v(s@[j]),
        decreases s@.len() - i,
    {
        out.push(s[i].clone());
        i = i + 1;
    }
    proof {
        broadcast use lemma_fields_v_len, lemma_fields_v_index;

        assert(fields_v(out@) =~= fields_v(s@));
    }
    out
}

/// The content of a sequence of `ConstructorSpec` values.
pub open spec fn ctors_v(s: Seq<ConstructorSpec>) -> Seq<ConstructorSpecV>
    decreases s,
{
    if s.len() == 0 {
        Seq::empty()
    } else {
        seq![ctor_v(s[0])] + ctors_v(s.drop_first())
    }
}

/// Element views line up with the elements.
pub broadcast proof fn lemma_ctors_v_len(s: Seq<ConstructorSpec>)
    ensures
        (#[trigger] ctors_v(s)).len() == s.len(),
    decreases s.len(),
{
    if s.len() > 0 {
        lemma_ctors_v_len(s.drop_first());
    }
}

/// The view of the sequence indexes to the view of the element.
pub broadcast proof fn lemma_ctors_v_index(s: Seq<ConstructorSpec>, i: int)
    requires
        0 <= i < s.len(),
    ensures
        #[trigger] ctors_v(s)[i] == ctor_v(s[i]),
    decreases s.len(),
{
    lemma_ctors_v_len(s);
    if i > 0 {
        lemma_ctors_v_index(s.drop_first(), i - 1);
    }
}

fn clone_ctors(s: &Vec<ConstructorSpec>) -> (r: Vec<ConstructorSpec>)
    ensures
        ctors_v(r@) == ctors_v(s@),
    decreases *s,
{
    let mut out: Vec<ConstructorSpec> = Vec::new();
    let mut i: usize = 0;
    while i < s.len()
        invariant
            i <= s@.len(),
            out@.len() == i,
            forall|j: int| 0 <= j < i ==> ctor_v(out@[j]) == ctor_v(s@[j]),
        decreases s@.len() - i,
    {
        out.push(s[i].clone());
        i = i + 1;
    }
    proof {
        broadcast use lemma_ctors_v_len, lemma_ctors_v_index;

        assert(ctors_v(out@) =~= ctors_v(s@));
    }
    out
}

/// The content of a sequence of `MethodSpec` values.
pub open spec fn methods_v(s: Seq<MethodSpec>) -> Seq<MethodSpecV>
    decreases s,
{
    if s.len() == 0 {
        Seq::empty()
    } else {
        seq![method_v(s[0])] + methods_v(s.drop_first())
    }
}

/// Element views line up with the elements.
pub broadcast proof fn lemma_methods_v_len(s: Seq<MethodSpec>)
    ensures
        (#[trigger] methods_v(s)).len() == s.len(),
    decreases s.len(),
{
    if s.len() > 0 {
        lemma_methods_v_len(s.drop_first());
    }
}

/// The view of the sequence indexes to the view of the element.
pub broadcast proof fn lemma_methods_v_index(s: Seq<MethodSpec>, i: int)
    requires
        0 <= i < s.len(),
    ensures
        #[trigger] methods_v(s)[i] == method_v(s[i]),
    decreases s.len(),
{
    lemma_methods_v_len(s);
    if i > 0 {
        lemma_methods_v_index(s.drop_first(), i - 1);
    }
}

fn clone_methods(s: &Vec<MethodSpec>) -> (r: Vec<MethodSpec>)
    ensures
        methods_v(r@) == methods_v(s@),
    decreases *s,
{
    let mut out: Vec<MethodSpec> = Vec::new();
    let mut i: usize = 0;
    while i < s.len()
        invariant
            i <= s@.len(),
            out@.len() == i,
            forall|j: int| 0 <= j < i ==> method_v(out@[j]) == method_v(s@[j]),
        decreases s@.len() - i,
    {
        out.push(s[i].clone());
        i = i + 1;
    }
    proof {
        broadcast use lemma_methods_v_len, lemma_methods_v_index;

        assert(methods_v(out@) =~= methods_v(s@));
    }
    out
}

/// The content of a sequence of `ElementSpec` values.
pub open spec fn elems_v(s: Seq<ElementSpec>) -> Seq<ElementSpecV>
    decreases s,
{
    if s.len() == 0 {
        Seq::empty()
    } else {
        seq![elem_v(s[0])] + elems_v(s.drop_first())
    }
}

/// Element views line up with the elements.
pub broadcast proof fn lemma_elems_v_len(s: Seq<ElementSpec>)
    ensures
        (#[trigger] elems_v(s)).len() == s.len(),
    decreases s.len(),
{
    if s.len() > 0 {
        lemma_elems_v_len(s.drop_first());
    }
}

/// The view of the sequence indexes to the view of the element.
pub broadcast proof fn lemma_elems_v_index(s: Seq<ElementSpec>, i: int)
    requires
        0 <= i < s.len(),
    ensures
        #[trigger] elems_v(s)[i] == elem_v(s[i]),
    decreases s.len(),
{
    lemma_elems_v_len(s);
    if i > 0 {
        lemma_elems_v_index(s.drop_first(), i - 1);
    }
}

fn clone_elems(s: &Vec<ElementSpec>) -> (r: Vec<ElementSpec>)
    ensures
        elems_v(r@) == elems_v(s@),
    decreases *s,
{
    let mut out: Vec<ElementSpec> = Vec::new();
    let mut i: usize = 0;
    while i < s.len()
        invariant
            i <= s@.len(),
            out@.len() == i,
            forall|j: int| 0 <= j < i ==> elem_v(out@[j]) == elem_v(s@[j]),
        decreases s@.len() - i,
    {
        out.push(s[i].clone());
        i = i + 1;
    }
    proof {
        broadcast use lemma_elems_v_len, lemma_elems_v_index;

        assert(elems_v(out@) =~= elems_v(s@));
    }
    out
}

impl View for FieldSpec {
    type V = FieldSpecV;

    open spec fn view(&self) -> FieldSpecV {
        field_v(*self)
    }
}

impl View for AnnotationSpec {
    type V = AnnotationSpecV;

    open spec fn view(&self) -> AnnotationSpecV {
        anno_v(*self)
    }
}

impl View for ArgumentSpec {
    type V = ArgumentSpecV;

    open spec fn view(&self) -> ArgumentSpecV {
        argspec_v(*self)
    }
}

impl View for ConstructorSpec {
    type V = ConstructorSpecV;

    open spec fn view(&self) -> ConstructorSpecV {
        ctor_v(*self)
    }
}

impl View for MethodSpec {
    type V = MethodSpecV;

    open spec fn view(&self) -> MethodSpecV {
        method_v(*self)
    }
}

impl View for InterfaceSpec {
    type V = InterfaceSpecV;

    open spec fn view(&self) -> InterfaceSpecV {
        iface_v(*self)
    }
}

impl View for ClassSpec {
    type V = ClassSpecV;

    open spec fn view(&self) -> ClassSpecV {
        class_v(*self)
    }
}

impl View for ElementSpec {
    type V = ElementSpecV;

    open spec fn view(&self) -> ElementSpecV {
        elem_v(*self)
    }
}

impl View for FileSpec {
    type V = FileSpecV;

    open spec fn view(&self) -> FileSpecV {
        file_v(*self)
    }
}

impl Clone for FieldSpec {
    fn clone(&self) -> (r: Self)
        ensures
            r@ == self@,
        decreases *self,
    {
        let r = FieldSpec {
            modifiers: self.modifiers.clone(),
            type_: self.type_.clone(),
            name: self.name.clone(),
        };
        proof {
            assert(r@ =~= self@);
        }
        r
    }
}

impl Clone for AnnotationSpec {
    fn clone(&self) -> (r: Self)
        ensures
            r@ == self@,
        decreases *self,
    {
        let r = AnnotationSpec {
            type_: self.type_.clone(),
            arguments: clone_statements(&self.arguments),
        };
        proof {
            assert(r@ =~= self@);
        }
        r
    }
}

impl Clone for ArgumentSpec {
    fn clone(&self) -> (r: Self)
        ensures
            r@ == self@,
        decreases *self,
    {
        let r = ArgumentSpec {
            modifiers: self.modifiers.clone(),
            type_: self.type_.clone(),
            name: self.name.clone(),
            annotations: clone_annotations(&self.annotations),
        };
        proof {
            assert(r@ =~= self@);
        }
        r
    }
}

impl Clone for ConstructorSpec {
    fn clone(&self) -> (r: Self)
        ensures
            r@ == self@,
        decreases *self,
    {
        let r = ConstructorSpec {
            modifiers: self.modifiers.clone(),
            annotations: clone_annotations(&self.annotations),
            arguments: clone_argspecs(&self.arguments),
            sections: self.sections.clone(),
        };
        proof {
            assert(r@ =~= self@);
        }
        r
    }
}

impl Clone for MethodSpec {
    fn clone(&self) -> (r: Self)
        ensures
            r@ == self@,
        decreases *self,
    {
        let r = MethodSpec {
            modifiers: self.modifiers.clone(),
            name: self.name.clone(),
            annotations: clone_annotations(&self.annotations),
            arguments: clone_argspecs(&self.arguments),
            returns: match &self.returns {
                Some(t) => Some(t.clone()),
                None => None,
            },
            sections: self.sections.clone(),
        };
        proof {
            assert(r@ =~= self@);
        }
        r
    }
}

impl Clone for InterfaceSpec {
    fn clone(&self) -> (r: Self)
        ensures
            r@ == self@,
        decreases *self,
    {
        let r = InterfaceSpec {
            modifiers: self.modifiers.clone(),
            name: self.name.clone(),
            annotations: clone_annotations(&self.annotations),
            elements: clone_elems(&self.elements),
        };
        proof {
            assert(r@ =~= self@);
        }
        r
    }
}

impl Clone for ClassSpec {
    fn clone(&self) -> (r: Self)
        ensures
            r@ == self@,
        decreases *self,
    {
        let r = ClassSpec {
            modifiers: self.modifiers.clone(),
            name: self.name.clone(),
            annotations: clone_annotations(&self.annotations),
            fields: clone_fields(&self.fields),
            constructors: clone_ctors(&self.constructors),
            methods: clone_methods(&self.methods),
            elements: clone_elems(&self.elements),
        };
        proof {
            assert(r@ =~= self@);
        }
        r
    }
}

impl Clone for ElementSpec {
    fn clone(&self) -> (r: Self)
        ensures
            r@ == self@,
        decreases *self,
    {
        let r = match self {
            ElementSpec::Class(c) => ElementSpec::Class(c.clone()),
            ElementSpec::Interface(i) => ElementSpec::Interface(i.clone()),
        };
        proof {
            assert(r@ =~= self@);
        }
        r
    }
}


/// The statement part a non-empty modifier set contributes to a declaration
/// header; an empty set contributes nothing.
pub open spec fn mods_part(ms: Seq<Modifier>) -> Seq<StatementPartV> {
    if ms.len() == 0 {
        Seq::empty()
    } else {
        seq![
            StatementPartV::Format(
                "$L "@,
                seq![VariableV::Literal(modifiers_chars_from(ms, 0))],
            ),
        ]
    }
}

/// One statement part per statement, in order.
pub open spec fn stmts_as_parts(stmts: Seq<StatementV>) -> Seq<StatementPartV> {
    Seq::new(stmts.len(), |k: int| StatementPartV::Statement(stmts[k]))
}

/// The statements joined by `", "` as one statement.
pub open spec fn args_joined(stmts: Seq<StatementV>) -> StatementV {
    stmt_join_v(StatementV { parts: stmts_as_parts(stmts) }, ", "@)
}

/// The statement part an argument list contributes: nothing when empty, else
/// one nested statement holding the arguments joined by `", "`.
pub open spec fn arguments_part(stmts: Seq<StatementV>) -> Seq<StatementPartV> {
    if stmts.len() == 0 {
        Seq::empty()
    } else {
        seq![StatementPartV::Statement(args_joined(stmts))]
    }
}

/// The statement an annotation renders to: `@` and its type, then its
/// arguments in parentheses when it has any.
pub open spec fn anno_stmt(a: AnnotationSpecV) -> StatementV {
    StatementV {
        parts: seq![StatementPartV::Format("@$T"@, seq![VariableV::TypeSpec(a.type_)])] + (
        if a.arguments.len() == 0 {
            Seq::empty()
        } else {
            seq![StatementPartV::Literal("("@)] + arguments_part(a.arguments) + seq![
                StatementPartV::Literal(")"@),
            ]
        }),
    }
}

/// The parts an annotation list contributes to a declaration header: each
/// annotation as a nested statement followed by a line break.
pub open spec fn annos_parts(annos: Seq<AnnotationSpecV>) -> Seq<StatementPartV> {
    Seq::new(
        2 * annos.len(),
        |k: int|
            if k % 2 == 0 {
                StatementPartV::Statement(anno_stmt(annos[k / 2]))
            } else {
                StatementPartV::Spacing
            },
    )
}

/// The statement an argument description renders to: its annotations,
/// modifiers, type and name.
pub open spec fn arg_stmt(a: ArgumentSpecV) -> StatementV {
    StatementV {
        parts: annos_parts(a.annotations) + mods_part(a.modifiers) + seq![
            StatementPartV::Format("$T "@, seq![VariableV::TypeSpec(a.type_)]),
            StatementPartV::Format("$L"@, seq![VariableV::Literal(a.name)]),
        ],
    }
}

/// The statement a field description renders to: its modifiers, type and
/// name.
pub open spec fn field_stmt(f: FieldSpecV) -> StatementV {
    StatementV {
        parts: mods_part(f.modifiers) + seq![
            StatementPartV::Format("$T "@, seq![VariableV::TypeSpec(f.type_)]),
            StatementPartV::Format("$L"@, seq![VariableV::Literal(f.name)]),
        ],
    }
}

/// The statements of an argument-description list.
pub open spec fn argspec_stmts(args: Seq<ArgumentSpecV>) -> Seq<StatementV> {
    Seq::new(args.len(), |k: int| arg_stmt(args[k]))
}

/// Conversion into a statement.
pub trait AsStatement {
    /// The statement this value renders to.
    spec fn statement_v(&self) -> StatementV;

    /// Render this value as a statement.
    fn as_statement(&self) -> (r: Result<Statement, JavaError>)
        ensures
            r matches Ok(s) && s@ == self.statement_v(),
    ;
}

impl AsStatement for Statement {
    open spec fn statement_v(&self) -> StatementV {
        stmt_v(*self)
    }

    fn as_statement(&self) -> (r: Result<Statement, JavaError>)
        ensures
            r matches Ok(s) && s@ == self.statement_v(),
    {
        Ok(self.clone())
    }
}

impl AsStatement for FieldSpec {
    open spec fn statement_v(&self) -> StatementV {
        field_stmt(field_v(*self))
    }

    fn as_statement(&self) -> (r: Result<Statement, JavaError>)
        ensures
            r matches Ok(s) && s@ == self.statement_v(),
    {
        let mut s = Statement::new();
        if !self.modifiers.is_empty() {
            match self.modifiers.format() {
                Ok(m) => {
                    s.push("$L ", var1(Variable::Literal(m)));
                },
                Err(e) => {
                    return Err(e);
                },
            }
        }
        s.push("$T ", var1(Variable::TypeSpec(self.type_.clone())));
        s.push("$L", var1(Variable::Literal(self.name.clone())));
        proof {
            broadcast use lemma_vars_v_len, lemma_vars_v_index;

            let target = self.statement_v();
            assert(s@.parts.len() == target.parts.len());
            assert forall|k: int| 0 <= k < target.parts.len() implies s@.parts[k]
                == target.parts[k] by {
                assert(target.parts[k] == (mods_part(self.modifiers@) + seq![
                    StatementPartV::Format("$T "@, seq![VariableV::TypeSpec(typespec_v(self.type_))]),
                    StatementPartV::Format("$L"@, seq![VariableV::Literal(self.name@)]),
                ])[k]);
            };
            assert(s@.parts =~= target.parts);
            assert(s@ =~~= target);
        }
        Ok(s)
    }
}

/// Conversion into a plain name.
pub trait AsName {
    /// The name this value stands for.
    spec fn name_v(&self) -> Seq<char>;

    /// The name as a string.
    fn as_name(&self) -> (r: String)
        ensures
            r@ == self.name_v(),
    ;
}

impl AsName for FieldSpec {
    open spec fn name_v(&self) -> Seq<char> {
        self.name@
    }

    fn as_name(&self) -> (r: String)
        ensures
            r@ == self.name_v(),
    {
        self.name.clone()
    }
}

impl AsName for ArgumentSpec {
    open spec fn name_v(&self) -> Seq<char> {
        self.name@
    }

    fn as_name(&self) -> (r: String)
        ensures
            r@ == self.name_v(),
    {
        self.name.clone()
    }
}

fn var1(v: Variable) -> (r: Vec<Variable>)
    ensures
        vars_v(r@) == seq![var_v(v)],
{
    let ghost vv = var_v(v);
    let mut r: Vec<Variable> = Vec::new();
    r.push(v);
    proof {
        broadcast use lemma_vars_v_len, lemma_vars_v_index;

        assert(vars_v(r@) =~= seq![vv]);
    }
    r
}

fn var2(a: Variable, b: Variable) -> (r: Vec<Variable>)
    ensures
        vars_v(r@) == seq![var_v(a), var_v(b)],
{
    let ghost av = var_v(a);
    let ghost bv = var_v(b);
    let mut r: Vec<Variable> = Vec::new();
    r.push(a);
    r.push(b);
    proof {
        broadcast use lemma_vars_v_len, lemma_vars_v_index;

        assert(vars_v(r@) =~= seq![av, bv]);
    }
    r
}

/// Append each annotation as a nested statement followed by a line break.
fn add_annotations(annotations: &Vec<AnnotationSpec>, target: &mut Statement) -> (r: Result<
    (),
    JavaError,
>)
    ensures
        r matches Ok(u) && final(target)@ == (StatementV {
            parts: old(target)@.parts + annos_parts(annos_v(annotations@)),
        }),
{
    let ghost av = annos_v(annotations@);
    let ghost base = old(target)@.parts;
    let mut i: usize = 0;
    while i < annotations.len()
        invariant
            av == annos_v(annotations@),
            base == old(target)@.parts,
            i <= annotations@.len(),
            target@.parts =~= base + annos_parts(av).subrange(0, 2 * i as int),
        decreases annotations@.len() - i,
    {
        proof {
            broadcast use lemma_annos_v_len, lemma_annos_v_index;

            assert(av[i as int] == anno_v(annotations@[i as int]));
        }
        match annotations[i].as_statement() {
            Ok(st) => {
                target.push_statement(st);
            },
            Err(e) => {
                return Err(e);
            },
        }
        target.push_spacing();
        proof {
            broadcast use lemma_annos_v_len;

            assert(target@.parts =~= base + annos_parts(av).subrange(0, 2 * (i + 1)));
        }
        i = i + 1;
    }
    proof {
        broadcast use lemma_annos_v_len;

        assert(annos_parts(av).subrange(0, annos_parts(av).len() as int) =~= annos_parts(av));
        assert(target@ =~= (StatementV { parts: base + annos_parts(av) }));
    }
    Ok(())
}

/// Append the arguments, joined by `", "`, as one nested statement; an empty
/// list appends nothing.
fn add_arguments<S: AsStatement>(arguments: &Vec<S>, target: &mut Statement) -> (r: Result<
    (),
    JavaError,
>)
    ensures
        r matches Ok(u) && final(target)@ == (StatementV {
            parts: old(target)@.parts + arguments_part(
                Seq::new(arguments@.len(), |k: int| arguments@[k].statement_v()),
            ),
        }),
{
    let ghost views = Seq::new(arguments@.len(), |k: int| arguments@[k].statement_v());
    if arguments.len() == 0 {
        proof {
            assert(old(target)@.parts + arguments_part(views) =~= old(target)@.parts);
            assert(target@ =~= (StatementV {
                parts: old(target)@.parts + arguments_part(views),
            }));
        }
        return Ok(());
    }
    let mut out: Statement = Statement::new();
    let mut i: usize = 0;
    while i < arguments.len()
        invariant
            views == Seq::new(arguments@.len(), |k: int| arguments@[k].statement_v()),
            i <= arguments@.len(),
            out@.parts =~= stmts_as_parts(views).subrange(0, i as int),
        decreases arguments@.len() - i,
    {
        match arguments[i].as_statement() {
            Ok(st) => {
                out.push_statement(st);
            },
            Err(e) => {
                return Err(e);
            },
        }
        proof {
            assert(out@.parts =~= stmts_as_parts(views).subrange(0, i + 1));
        }
        i = i + 1;
    }
    proof {
        assert(stmts_as_parts(views).subrange(0, stmts_as_parts(views).len() as int)
            =~= stmts_as_parts(views));
        assert(out@ =~= (StatementV { parts: stmts_as_parts(views) }));
    }
    let ghost outv = out@;
    let joined = out.join(", ");
    proof {
        assert(joined@ == stmt_join_v(outv, ", "@));
        assert(outv == (StatementV { parts: stmts_as_parts(views) }));
        assert(joined@ == args_joined(views));
    }
    target.push_statement(joined);
    proof {
        assert(target@.parts == old(target)@.parts.push(
            StatementPartV::Statement(args_joined(views)),
        ));
        assert(views.len() == arguments@.len());
        assert(arguments@.len() > 0);
        assert(arguments_part(views) == seq![StatementPartV::Statement(args_joined(views))]);
        assert(target@.parts =~= old(target)@.parts + arguments_part(views));
        assert(target@ =~~= (StatementV {
            parts: old(target)@.parts + arguments_part(views),
        }));
    }
    Ok(())
}

impl AsStatement for AnnotationSpec {
    open spec fn statement_v(&self) -> StatementV {
        anno_stmt(anno_v(*self))
    }

    fn as_statement(&self) -> (r: Result<Statement, JavaError>)
        ensures
            r matches Ok(s) && s@ == self.statement_v(),
    {
        let mut s = Statement::new();
        s.push("@$T", var1(Variable::TypeSpec(self.type_.clone())));
        if self.arguments.len() > 0 {
            s.push_literal("(");
            match add_arguments(&self.arguments, &mut s) {
                Ok(u) => {},
                Err(e) => {
                    return Err(e);
                },
            }
            s.push_literal(")");
        }
        proof {
            broadcast use lemma_vars_v_len, lemma_vars_v_index, lemma_stmts_v_len,
                lemma_stmts_v_index;

            assert(Seq::new(self.arguments@.len(), |k: int| self.arguments@[k].statement_v())
                =~= stmts_v(self.arguments@));
            let target = self.statement_v();
            assert(s@.parts.len() == target.parts.len());
            assert forall|k: int| 0 <= k < target.parts.len() implies s@.parts[k]
                == target.parts[k] by {
                assert(target.parts[k] == (seq![
                    StatementPartV::Format("@$T"@, seq![VariableV::TypeSpec(typespec_v(self.type_))]),
                ] + (if stmts_v(self.arguments@).len() == 0 {
                    Seq::empty()
                } else {
                    seq![StatementPartV::Literal("("@)] + arguments_part(stmts_v(self.arguments@))
                        + seq![StatementPartV::Literal(")"@)]
                }))[k]);
            };
            assert(s@.parts =~= target.parts);
            assert(s@ =~~= target);
        }
        Ok(s)
    }
}

impl AsStatement for ArgumentSpec {
    open spec fn statement_v(&self) -> StatementV {
        arg_stmt(argspec_v(*self))
    }

    fn as_statement(&self) -> (r: Result<Statement, JavaError>)
        ensures
            r matches Ok(s) && s@ == self.statement_v(),
    {
        let mut s = Statement::new();
        match add_annotations(&self.annotations, &mut s) {
            Ok(u) => {},
            Err(e) => {
                return Err(e);
            },
        }
        if !self.modifiers.is_empty() {
            match self.modifiers.format() {
                Ok(m) => {
                    s.push("$L ", var1(Variable::Literal(m)));
                },
                Err(e) => {
                    return Err(e);
                },
            }
        }
        s.push("$T ", var1(Variable::TypeSpec(self.type_.clone())));
        s.push("$L", var1(Variable::Literal(self.name.clone())));
        proof {
            broadcast use lemma_vars_v_len, lemma_vars_v_index;

            let target = self.statement_v();
            assert(s@.parts.len() == target.parts.len());
            assert forall|k: int| 0 <= k < target.parts.len() implies s@.parts[k]
                == target.parts[k] by {
                assert(target.parts[k] == (annos_parts(annos_v(self.annotations@)) + mods_part(
                    self.modifiers@,
                ) + seq![
                    StatementPartV::Format("$T "@, seq![VariableV::TypeSpec(typespec_v(self.type_))]),
                    StatementPartV::Format("$L"@, seq![VariableV::Literal(self.name@)]),
                ])[k]);
            };
            assert(s@.parts =~= target.parts);
            assert(s@ =~~= target);
        }
        Ok(s)
    }
}


impl AnnotationSpec {
    /// An annotation of the given type with no arguments.
    pub fn new<I: AsTypeSpec>(type_: I) -> (r: AnnotationSpec)
        ensures
            r@ == (AnnotationSpecV { type_: type_.as_type_spec_v(), arguments: Seq::empty() }),
    {
        let r = AnnotationSpec { type_: type_.as_type_spec(), arguments: Vec::new() };
        proof {
            assert(r@ =~~= (AnnotationSpecV {
                type_: type_.as_type_spec_v(),
                arguments: Seq::empty(),
            }));
        }
        r
    }

    /// Append an argument statement.
    pub fn push_argument(&mut self, statement: &Statement)
        ensures
            final(self)@ == (AnnotationSpecV {
                arguments: old(self)@.arguments.push(statement@),
                ..old(self)@
            }),
    {
        let ghost pre = self.arguments@;
        self.arguments.push(statement.clone());
        proof {
            broadcast use lemma_stmts_v_len, lemma_stmts_v_index;

            assert(stmts_v(self.arguments@) =~= stmts_v(pre).push(statement@));
            assert(self@ =~~= (AnnotationSpecV {
                arguments: old(self)@.arguments.push(statement@),
                ..old(self)@
            }));
        }
    }
}

impl FieldSpec {
    /// A field with the given modifiers, type and name.
    pub fn new<I: AsTypeSpec>(modifiers: Modifiers, type_: I, name: &str) -> (r: FieldSpec)
        ensures
            r@ == (FieldSpecV {
                modifiers: modifiers@,
                type_: type_.as_type_spec_v(),
                name: name@,
            }),
    {
        let r = FieldSpec { modifiers, type_: type_.as_type_spec(), name: name.to_owned() };
        proof {
            assert(r@ =~~= (FieldSpecV {
                modifiers: r.modifiers@,
                type_: type_.as_type_spec_v(),
                name: name@,
            }));
        }
        r
    }

    /// Record the types this field mentions.
    pub fn imports(&self, receiver: &mut TypeSet)
        requires
            old(receiver).wf(),
        ensures
            final(receiver).wf(),
            forall|k: TypeV|
                final(receiver)@.contains(k) <==> old(receiver)@.contains(k) || typespecv_types(
                    self@.type_,
                ).contains(k),
    {
        self.type_.imports(receiver);
    }
}

impl ArgumentSpec {
    /// An argument with the given modifiers, type and name.
    pub fn new<I: AsTypeSpec>(modifiers: Modifiers, type_: I, name: &str) -> (r: ArgumentSpec)
        ensures
            r@ == (ArgumentSpecV {
                modifiers: modifiers@,
                type_: type_.as_type_spec_v(),
                name: name@,
                annotations: Seq::empty(),
            }),
    {
        let r = ArgumentSpec {
            modifiers,
            type_: type_.as_type_spec(),
            name: name.to_owned(),
            annotations: Vec::new(),
        };
        proof {
            assert(r@ =~~= (ArgumentSpecV {
                modifiers: r.modifiers@,
                type_: type_.as_type_spec_v(),
                name: name@,
                annotations: Seq::empty(),
            }));
        }
        r
    }

    /// Append to `annotations`.
    pub fn push_annotation(&mut self, annotation: &AnnotationSpec)
        ensures
            final(self)@ == (ArgumentSpecV {
                annotations: old(self)@.annotations.push(annotation@),
                ..old(self)@
            }),
    {
        let ghost pre = self.annotations@;
        self.annotations.push(annotation.clone());
        proof {
            broadcast use lemma_annos_v_len, lemma_annos_v_index;

            assert(annos_v(self.annotations@) =~= annos_v(pre).push(annotation@));
            assert(self@ =~~= (ArgumentSpecV {
                annotations: old(self)@.annotations.push(annotation@),
                ..old(self)@
            }));
        }
    }
}

impl ConstructorSpec {
    /// A constructor with the given modifiers.
    pub fn new(modifiers: Modifiers) -> (r: ConstructorSpec)
        ensures
            r@ == (ConstructorSpecV {
                modifiers: modifiers@,
                annotations: Seq::empty(),
                arguments: Seq::empty(),
                sections: SectionsV { sections: Seq::empty() },
            }),
    {
        let r = ConstructorSpec {
            modifiers,
            annotations: Vec::new(),
            arguments: Vec::new(),
            sections: Sections::new(),
        };
        proof {
            assert(r@ =~~= (ConstructorSpecV {
                modifiers: r.modifiers@,
                annotations: Seq::empty(),
                arguments: Seq::empty(),
                sections: SectionsV { sections: Seq::empty() },
            }));
        }
        r
    }

    /// Append to `annotations`.
    pub fn push_annotation(&mut self, annotation: &AnnotationSpec)
        ensures
            final(self)@ == (ConstructorSpecV {
                annotations: old(self)@.annotations.push(annotation@),
                ..old(self)@
            }),
    {
        let ghost pre = self.annotations@;
        self.annotations.push(annotation.clone());
        proof {
            broadcast use lemma_annos_v_len, lemma_annos_v_index;

            assert(annos_v(self.annotations@) =~= annos_v(pre).push(annotation@));
            assert(self@ =~~= (ConstructorSpecV {
                annotations: old(self)@.annotations.push(annotation@),
                ..old(self)@
            }));
        }
    }

    /// Append to `arguments`.
    pub fn push_argument(&mut self, argument: &ArgumentSpec)
        ensures
            final(self)@ == (ConstructorSpecV {
                arguments: old(self)@.arguments.push(argument@),
                ..old(self)@
            }),
    {
        let ghost pre = self.arguments@;
        self.arguments.push(argument.clone());
        proof {
            broadcast use lemma_argspecs_v_len, lemma_argspecs_v_index;

            assert(argspecs_v(self.arguments@) =~= argspecs_v(pre).push(argument@));
            assert(self@ =~~= (ConstructorSpecV {
                arguments: old(self)@.arguments.push(argument@),
                ..old(self)@
            }));
        }
    }

    /// Append a body statement.
    pub fn push_statement(&mut self, statement: &Statement)
        ensures
            final(self)@ == (ConstructorSpecV {
                sections: SectionsV {
                    sections: old(self)@.sections.sections.push(SectionV::Statement(statement@)),
                },
                ..old(self)@
            }),
    {
        self.sections.push_statement(statement);
        proof {
            assert(self@ =~~= (ConstructorSpecV {
                sections: SectionsV {
                    sections: old(self)@.sections.sections.push(SectionV::Statement(statement@)),
                },
                ..old(self)@
            }));
        }
    }
}

impl MethodSpec {
    /// A method with the given modifiers and name.
    pub fn new(modifiers: Modifiers, name: &str) -> (r: MethodSpec)
        ensures
            r@ == (MethodSpecV {
                modifiers: modifiers@,
                name: name@,
                annotations: Seq::empty(),
                arguments: Seq::empty(),
                returns: None,
                sections: SectionsV { sections: Seq::empty() },
            }),
    {
        let r = MethodSpec {
            modifiers,
            name: name.to_owned(),
            annotations: Vec::new(),
            arguments: Vec::new(),
            returns: None,
            sections: Sections::new(),
        };
        proof {
            assert(r@ =~~= (MethodSpecV {
                modifiers: r.modifiers@,
                name: name@,
                annotations: Seq::empty(),
                arguments: Seq::empty(),
                returns: None,
                sections: SectionsV { sections: Seq::empty() },
            }));
        }
        r
    }

    /// Append to `annotations`.
    pub fn push_annotation(&mut self, annotation: &AnnotationSpec)
        ensures
            final(self)@ == (MethodSpecV {
                annotations: old(self)@.annotations.push(annotation@),
                ..old(self)@
            }),
    {
        let ghost pre = self.annotations@;
        self.annotations.push(annotation.clone());
        proof {
            broadcast use lemma_annos_v_len, lemma_annos_v_index;

            assert(annos_v(self.annotations@) =~= annos_v(pre).push(annotation@));
            assert(self@ =~~= (MethodSpecV {
                annotations: old(self)@.annotations.push(annotation@),
                ..old(self)@
            }));
        }
    }

    /// Append to `arguments`.
    pub fn push_argument(&mut self, argument: &ArgumentSpec)
        ensures
            final(self)@ == (MethodSpecV {
                arguments: old(self)@.arguments.push(argument@),
                ..old(self)@
            }),
    {
        let ghost pre = self.arguments@;
        self.arguments.push(argument.clone());
        proof {
            broadcast use lemma_argspecs_v_len, lemma_argspecs_v_index;

            assert(argspecs_v(self.arguments@) =~= argspecs_v(pre).push(argument@));
            assert(self@ =~~= (MethodSpecV {
                arguments: old(self)@.arguments.push(argument@),
                ..old(self)@
            }));
        }
    }

    /// Set the return type.
    pub fn set_returns<I: AsTypeSpec>(&mut self, ty: I)
        ensures
            final(self)@ == (MethodSpecV { returns: Some(ty.as_type_spec_v()), ..old(self)@ }),
    {
        self.returns = Some(ty.as_type_spec());
        proof {
            assert(self@ =~~= (MethodSpecV { returns: Some(ty.as_type_spec_v()), ..old(self)@ }));
        }
    }

    /// Append a body statement.
    pub fn push_statement(&mut self, statement: &Statement)
        ensures
            final(self)@ == (MethodSpecV {
                sections: SectionsV {
                    sections: old(self)@.sections.sections.push(SectionV::Statement(statement@)),
                },
                ..old(self)@
            }),
    {
        self.sections.push_statement(statement);
        proof {
            assert(self@ =~~= (MethodSpecV {
                sections: SectionsV {
                    sections: old(self)@.sections.sections.push(SectionV::Statement(statement@)),
                },
                ..old(self)@
            }));
        }
    }
}

impl InterfaceSpec {
    /// An interface with the given modifiers and name.
    pub fn new(modifiers: Modifiers, name: &str) -> (r: InterfaceSpec)
        ensures
            r@ == (InterfaceSpecV {
                modifiers: modifiers@,
                name: name@,
                annotations: Seq::empty(),
                elements: Seq::empty(),
            }),
    {
        let r = InterfaceSpec {
            modifiers,
            name: name.to_owned(),
            annotations: Vec::new(),
            elements: Vec::new(),
        };
        proof {
            assert(r@ =~~= (InterfaceSpecV {
                modifiers: r.modifiers@,
                name: name@,
                annotations: Seq::empty(),
                elements: Seq::empty(),
            }));
        }
        r
    }

    /// Append to `annotations`.
    pub fn push_annotation(&mut self, annotation: &AnnotationSpec)
        ensures
            final(self)@ == (InterfaceSpecV {
                annotations: old(self)@.annotations.push(annotation@),
                ..old(self)@
            }),
    {
        let ghost pre = self.annotations@;
        self.annotations.push(annotation.clone());
        proof {
            broadcast use lemma_annos_v_len, lemma_annos_v_index;

            assert(annos_v(self.annotations@) =~= annos_v(pre).push(annotation@));
            assert(self@ =~~= (InterfaceSpecV {
                annotations: old(self)@.annotations.push(annotation@),
                ..old(self)@
            }));
        }
    }

    /// Append a nested class.
    pub fn push_class(&mut self, class: &ClassSpec)
        ensures
            final(self)@ == (InterfaceSpecV {
                elements: old(self)@.elements.push(ElementSpecV::Class(class@)),
                ..old(self)@
            }),
    {
        let ghost pre = self.elements@;
        self.elements.push(ElementSpec::Class(class.clone()));
        proof {
            broadcast use lemma_elems_v_len, lemma_elems_v_index;

            assert(elems_v(self.elements@) =~= elems_v(pre).push(ElementSpecV::Class(class@)));
            assert(self@ =~~= (InterfaceSpecV {
                elements: old(self)@.elements.push(ElementSpecV::Class(class@)),
                ..old(self)@
            }));
        }
    }

    /// Append a nested interface.
    pub fn push_interface(&mut self, interface: &InterfaceSpec)
        ensures
            final(self)@ == (InterfaceSpecV {
                elements: old(self)@.elements.push(ElementSpecV::Interface(interface@)),
                ..old(self)@
            }),
    {
        let ghost pre = self.elements@;
        self.elements.push(ElementSpec::Interface(interface.clone()));
        proof {
            broadcast use lemma_elems_v_len, lemma_elems_v_index;

            assert(elems_v(self.elements@) =~= elems_v(pre).push(
                ElementSpecV::Interface(interface@),
            ));
            assert(self@ =~~= (InterfaceSpecV {
                elements: old(self)@.elements.push(ElementSpecV::Interface(interface@)),
                ..old(self)@
            }));
        }
    }
}

impl ClassSpec {
    /// A class with the given modifiers and name.
    pub fn new(modifiers: Modifiers, name: &str) -> (r: ClassSpec)
        ensures
            r@ == (ClassSpecV {
                modifiers: modifiers@,
                name: name@,
                annotations: Seq::empty(),
                fields: Seq::empty(),
                constructors: Seq::empty(),
                methods: Seq::empty(),
                elements: Seq::empty(),
            }),
    {
        let r = ClassSpec {
            modifiers,
            name: name.to_owned(),
            annotations: Vec::new(),
            fields: Vec::new(),
            constructors: Vec::new(),
            methods: Vec::new(),
            elements: Vec::new(),
        };
        proof {
            assert(r@ =~~= (ClassSpecV {
                modifiers: r.modifiers@,
                name: name@,
                annotations: Seq::empty(),
                fields: Seq::empty(),
                constructors: Seq::empty(),
                methods: Seq::empty(),
                elements: Seq::empty(),
            }));
        }
        r
    }

    /// Append to `annotations`.
    pub fn push_annotation(&mut self, annotation: &AnnotationSpec)
        ensures
            final(self)@ == (ClassSpecV {
                annotations: old(self)@.annotations.push(annotation@),
                ..old(self)@
            }),
    {
        let ghost pre = self.annotations@;
        self.annotations.push(annotation.clone());
        proof {
            broadcast use lemma_annos_v_len, lemma_annos_v_index;

            assert(annos_v(self.annotations@) =~= annos_v(pre).push(annotation@));
            assert(self@ =~~= (ClassSpecV {
                annotations: old(self)@.annotations.push(annotation@),
                ..old(self)@
            }));
        }
    }

    /// Append to `fields`.
    pub fn push_field(&mut self, field: &FieldSpec)
        ensures
            final(self)@ == (ClassSpecV {
                fields: old(self)@.fields.push(field@),
                ..old(self)@
            }),
    {
        let ghost pre = self.fields@;
        self.fields.push(field.clone());
        proof {
            broadcast use lemma_fields_v_len, lemma_fields_v_index;

            assert(fields_v(self.fields@) =~= fields_v(pre).push(field@));
            assert(self@ =~~= (ClassSpecV {
                fields: old(self)@.fields.push(field@),
                ..old(self)@
            }));
        }
    }

    /// Append to `constructors`.
    pub fn push_constructor(&mut self, constructor: &ConstructorSpec)
        ensures
            final(self)@ == (ClassSpecV {
                constructors: old(self)@.constructors.push(constructor@),
                ..old(self)@
            }),
    {
        let ghost pre = self.constructors@;
        self.constructors.push(constructor.clone());
        proof {
            broadcast use lemma_ctors_v_len, lemma_ctors_v_index;

            assert(ctors_v(self.constructors@) =~= ctors_v(pre).push(constructor@));
            assert(self@ =~~= (ClassSpecV {
                constructors: old(self)@.constructors.push(constructor@),
                ..old(self)@
            }));
        }
    }

    /// Append to `methods`.
    pub fn push_method(&mut self, method: &MethodSpec)
        ensures
            final(self)@ == (ClassSpecV {
                methods: old(self)@.methods.push(method@),
                ..old(self)@
            }),
    {
        let ghost pre = self.methods@;
        self.methods.push(method.clone());
        proof {
            broadcast use lemma_methods_v_len, lemma_methods_v_index;

            assert(methods_v(self.methods@) =~= methods_v(pre).push(method@));
            assert(self@ =~~= (ClassSpecV {
                methods: old(self)@.methods.push(method@),
                ..old(self)@
            }));
        }
    }

    /// Append a nested class.
    pub fn push_class(&mut self, class: &ClassSpec)
        ensures
            final(self)@ == (ClassSpecV {
                elements: old(self)@.elements.push(ElementSpecV::Class(class@)),
                ..old(self)@
            }),
    {
        let ghost pre = self.elements@;
        self.elements.push(ElementSpec::Class(class.clone()));
        proof {
            broadcast use lemma_elems_v_len, lemma_elems_v_index;

            assert(elems_v(self.elements@) =~= elems_v(pre).push(ElementSpecV::Class(class@)));
            assert(self@ =~~= (ClassSpecV {
                elements: old(self)@.elements.push(ElementSpecV::Class(class@)),
                ..old(self)@
            }));
        }
    }

    /// Append a nested interface.
    pub fn push_interface(&mut self, interface: &InterfaceSpec)
        ensures
            final(self)@ == (ClassSpecV {
                elements: old(self)@.elements.push(ElementSpecV::Interface(interface@)),
                ..old(self)@
            }),
    {
        let ghost pre = self.elements@;
        self.elements.push(ElementSpec::Interface(interface.clone()));
        proof {
            broadcast use lemma_elems_v_len, lemma_elems_v_index;

            assert(elems_v(self.elements@) =~= elems_v(pre).push(
                ElementSpecV::Interface(interface@),
            ));
            assert(self@ =~~= (ClassSpecV {
                elements: old(self)@.elements.push(ElementSpecV::Interface(interface@)),
                ..old(self)@
            }));
        }
    }
}

impl FileSpec {
    /// A file in the given package with no elements.
    pub fn new(package: &str) -> (r: FileSpec)
        ensures
            r@ == (FileSpecV { package: package@, elements: Seq::empty() }),
    {
        let r = FileSpec { package: package.to_owned(), elements: Vec::new() };
        proof {
            assert(r@ =~~= (FileSpecV { package: package@, elements: Seq::empty() }));
        }
        r
    }

    /// Append a top-level class.
    pub fn push_class(&mut self, class: &ClassSpec)
        ensures
            final(self)@ == (FileSpecV {
                elements: old(self)@.elements.push(ElementSpecV::Class(class@)),
                ..old(self)@
            }),
    {
        let ghost pre = self.elements@;
        self.elements.push(ElementSpec::Class(class.clone()));
        proof {
            broadcast use lemma_elems_v_len, lemma_elems_v_index;

            assert(elems_v(self.elements@) =~= elems_v(pre).push(ElementSpecV::Class(class@)));
            assert(self@ =~~= (FileSpecV {
                elements: old(self)@.elements.push(ElementSpecV::Class(class@)),
                ..old(self)@
            }));
        }
    }

    /// Append a top-level interface.
    pub fn push_interface(&mut self, interface: &InterfaceSpec)
        ensures
            final(self)@ == (FileSpecV {
                elements: old(self)@.elements.push(ElementSpecV::Interface(interface@)),
                ..old(self)@
            }),
    {
        let ghost pre = self.elements@;
        self.elements.push(ElementSpec::Interface(interface.clone()));
        proof {
            broadcast use lemma_elems_v_len, lemma_elems_v_index;

            assert(elems_v(self.elements@) =~= elems_v(pre).push(
                ElementSpecV::Interface(interface@),
            ));
            assert(self@ =~~= (FileSpecV {
                elements: old(self)@.elements.push(ElementSpecV::Interface(interface@)),
                ..old(self)@
            }));
        }
    }
}


/// The raw types a sequence of complete types mentions, from position `i` on.
pub open spec fn typespecsv_types(ts: Seq<TypeSpecV>, i: int) -> Set<TypeV>
    decreases ts, ts.len() - i,
{
    if i < 0 || i >= ts.len() {
        Set::empty()
    } else {
        typespecv_types(ts[i]).union(typespecsv_types(ts, i + 1))
    }
}

/// The raw types a complete type mentions: its own raw type and those of its
/// generic arguments.
pub open spec fn typespecv_types(t: TypeSpecV) -> Set<TypeV>
    decreases t,
{
    typespecsv_types(t.arguments, 0).insert(t.raw)
}

/// The types the variables of a format part mention, from position `i` on.
pub open spec fn varsv_imports(vs: Seq<VariableV>, i: int) -> Set<TypeV>
    decreases vs, vs.len() - i,
{
    if i < 0 || i >= vs.len() {
        Set::empty()
    } else {
        varv_imports(vs[i]).union(varsv_imports(vs, i + 1))
    }
}

/// The types one variable mentions: only type variables carry any.
pub open spec fn varv_imports(v: VariableV) -> Set<TypeV>
    decreases v,
{
    match v {
        VariableV::TypeSpec(t) => typespecv_types(t),
        _ => Set::empty(),
    }
}

/// The types the parts of a statement mention, from position `i` on.
pub open spec fn partsv_imports(ps: Seq<StatementPartV>, i: int) -> Set<TypeV>
    decreases ps, ps.len() - i,
{
    if i < 0 || i >= ps.len() {
        Set::empty()
    } else {
        partv_imports(ps[i]).union(partsv_imports(ps, i + 1))
    }
}

/// The types one statement part mentions: the type variables of a format
/// part, or everything a nested statement mentions.
pub open spec fn partv_imports(p: StatementPartV) -> Set<TypeV>
    decreases p,
{
    match p {
        StatementPartV::Format(f, vars) => varsv_imports(vars, 0),
        StatementPartV::Statement(sv) => stmtv_imports(sv),
        _ => Set::empty(),
    }
}

/// The types a statement mentions.
pub open spec fn stmtv_imports(s: StatementV) -> Set<TypeV>
    decreases s,
{
    partsv_imports(s.parts, 0)
}

/// The types the sections mention, from position `i` on.
pub open spec fn sectionsv_imports(ss: Seq<SectionV>, i: int) -> Set<TypeV>
    decreases ss, ss.len() - i,
{
    if i < 0 || i >= ss.len() {
        Set::empty()
    } else {
        sectionv_imports(ss[i]).union(sectionsv_imports(ss, i + 1))
    }
}

/// The types one section mentions.
pub open spec fn sectionv_imports(s: SectionV) -> Set<TypeV>
    decreases s,
{
    match s {
        SectionV::Block(b) => blockv_imports(b),
        SectionV::Statement(sv) => stmtv_imports(sv),
        SectionV::Spacing => Set::empty(),
    }
}

/// The types a block mentions: its opening and closing statements and its
/// sections.
pub open spec fn blockv_imports(b: BlockV) -> Set<TypeV>
    decreases b,
{
    (match b.open_stmt {
        Some(o) => stmtv_imports(o),
        None => Set::empty(),
    }).union(
        match b.close_stmt {
            Some(c) => stmtv_imports(c),
            None => Set::empty(),
        },
    ).union(sectionsv_imports(b.sections.sections, 0))
}

/// The types the argument statements of an annotation mention, from `i` on.
pub open spec fn stmtsv_imports(ss: Seq<StatementV>, i: int) -> Set<TypeV>
    decreases ss, ss.len() - i,
{
    if i < 0 || i >= ss.len() {
        Set::empty()
    } else {
        stmtv_imports(ss[i]).union(stmtsv_imports(ss, i + 1))
    }
}

/// The types an annotation mentions: its own type and its arguments.
pub open spec fn annov_imports(a: AnnotationSpecV) -> Set<TypeV>
    decreases a,
{
    typespecv_types(a.type_).union(stmtsv_imports(a.arguments, 0))
}

/// The types a list of annotations mentions, from `i` on.
pub open spec fn annosv_imports(annos: Seq<AnnotationSpecV>, i: int) -> Set<TypeV>
    decreases annos, annos.len() - i,
{
    if i < 0 || i >= annos.len() {
        Set::empty()
    } else {
        annov_imports(annos[i]).union(annosv_imports(annos, i + 1))
    }
}

/// The types an argument description mentions: its type and its annotations.
pub open spec fn argspecv_imports(a: ArgumentSpecV) -> Set<TypeV>
    decreases a,
{
    typespecv_types(a.type_).union(annosv_imports(a.annotations, 0))
}

/// The types a list of argument descriptions mentions, from `i` on.
pub open spec fn argspecsv_imports(args: Seq<ArgumentSpecV>, i: int) -> Set<TypeV>
    decreases args, args.len() - i,
{
    if i < 0 || i >= args.len() {
        Set::empty()
    } else {
        argspecv_imports(args[i]).union(argspecsv_imports(args, i + 1))
    }
}

/// The types a constructor mentions: its body, annotations and arguments.
pub open spec fn ctorv_imports(c: ConstructorSpecV) -> Set<TypeV>
    decreases c,
{
    sectionsv_imports(c.sections.sections, 0).union(annosv_imports(c.annotations, 0)).union(
        argspecsv_imports(c.arguments, 0),
    )
}

/// The types a list of constructors mentions, from `i` on.
pub open spec fn ctorsv_imports(cs: Seq<ConstructorSpecV>, i: int) -> Set<TypeV>
    decreases cs, cs.len() - i,
{
    if i < 0 || i >= cs.len() {
        Set::empty()
    } else {
        ctorv_imports(cs[i]).union(ctorsv_imports(cs, i + 1))
    }
}

/// The types a method mentions: its return type, arguments and body.
pub open spec fn methodv_imports(m: MethodSpecV) -> Set<TypeV>
    decreases m,
{
    (match m.returns {
        Some(t) => typespecv_types(t),
        None => Set::empty(),
    }).union(argspecsv_imports(m.arguments, 0)).union(sectionsv_imports(m.sections.sections, 0))
}

/// The types a list of methods mentions, from `i` on.
pub open spec fn methodsv_imports(ms: Seq<MethodSpecV>, i: int) -> Set<TypeV>
    decreases ms, ms.len() - i,
{
    if i < 0 || i >= ms.len() {
        Set::empty()
    } else {
        methodv_imports(ms[i]).union(methodsv_imports(ms, i + 1))
    }
}

/// The types an interface mentions: its annotations and nested elements.
pub open spec fn ifacev_imports(i: InterfaceSpecV) -> Set<TypeV>
    decreases i,
{
    annosv_imports(i.annotations, 0).union(elemsv_imports(i.elements, 0))
}

/// The types a class mentions: its annotations, constructors and methods.
pub open spec fn classv_imports(c: ClassSpecV) -> Set<TypeV>
    decreases c,
{
    annosv_imports(c.annotations, 0).union(ctorsv_imports(c.constructors, 0)).union(
        methodsv_imports(c.methods, 0),
    )
}

/// The types one top-level element mentions.
pub open spec fn elemv_imports(e: ElementSpecV) -> Set<TypeV>
    decreases e,
{
    match e {
        ElementSpecV::Class(c) => classv_imports(c),
        ElementSpecV::Interface(i) => ifacev_imports(i),
    }
}

/// The types a list of top-level elements mentions, from `i` on.
pub open spec fn elemsv_imports(es: Seq<ElementSpecV>, i: int) -> Set<TypeV>
    decreases es, es.len() - i,
{
    if i < 0 || i >= es.len() {
        Set::empty()
    } else {
        elemv_imports(es[i]).union(elemsv_imports(es, i + 1))
    }
}

/// A receiver of raw types found while scanning for imports.
pub trait ImportReceiver {
    /// The types received so far.
    spec fn received(&self) -> Seq<TypeV>;

    /// The receiver's invariant.
    spec fn receiver_wf(&self) -> bool;

    /// Record one raw type.
    fn receive(&mut self, type_: &Type)
        requires
            old(self).receiver_wf(),
        ensures
            final(self).receiver_wf(),
            forall|k: TypeV|
                final(self).received().contains(k) <==> old(self).received().contains(k) || k
                    == type_@,
    ;
}

impl ImportReceiver for TypeSet {
    open spec fn received(&self) -> Seq<TypeV> {
        self@
    }

    open spec fn receiver_wf(&self) -> bool {
        self.wf()
    }

    fn receive(&mut self, type_: &Type)
        ensures
            final(self).receiver_wf(),
            forall|k: TypeV|
                final(self).received().contains(k) <==> old(self).received().contains(k) || k
                    == type_@,
    {
        self.insert_sorted(type_);
    }
}


/// A holder of types found while scanning declarations for imports.
pub trait Imports {
    /// The types this value mentions.
    spec fn imported(&self) -> Set<TypeV>;

    /// Record every type this value mentions.
    fn imports(&self, receiver: &mut TypeSet)
        requires
            old(receiver).wf(),
        ensures
            final(receiver).wf(),
            forall|k: TypeV|
                final(receiver)@.contains(k) <==> old(receiver)@.contains(k)
                    || self.imported().contains(k),
    ;
}

impl TypeSpec {
    /// Record this type and the types of its generic arguments.
    pub fn imports(&self, receiver: &mut TypeSet)
        requires
            old(receiver).wf(),
        ensures
            final(receiver).wf(),
            forall|k: TypeV|
                final(receiver)@.contains(k) <==> old(receiver)@.contains(k) || typespecv_types(
                    self@,
                ).contains(k),
        decreases *self,
    {
        let ghost base = receiver@;
        receiver.receive(&self.raw);
        let ghost tv = typespecs_v(self.arguments@);
        proof {
            assert(typespecv_types(self@) == typespecsv_types(tv, 0).insert(self.raw@));
            assert forall|k: TypeV|
                receiver@.contains(k) || typespecsv_types(tv, 0).contains(k) <==> base.contains(k) || typespecv_types(self@).contains(k) by {
                assert(receiver.received().contains(k) <==> old(receiver).received().contains(k)
                    || k == self.raw@);
                assert(receiver.received() == receiver@);
                assert(receiver@.contains(k) <==> base.contains(k) || k == self.raw@);
                assert(typespecv_types(self@).contains(k) <==> typespecsv_types(tv, 0).contains(k)
                    || k == self.raw@);
            };
        }
        let mut i: usize = 0;
        while i < self.arguments.len()
            invariant
                receiver.wf(),
                tv == typespecs_v(self.arguments@),
                i <= self.arguments@.len(),
                forall|k: TypeV|
                    #![auto]
                    receiver@.contains(k) || typespecsv_types(tv, i as int).contains(k) <==> base.contains(k) || typespecv_types(self@).contains(k),
            decreases self.arguments@.len() - i,
        {
            proof {
                broadcast use lemma_typespecs_v_len, lemma_typespecs_v_index;

                assert(forall|k: TypeV| #![auto]
                    receiver@.contains(k) || typespecsv_types(tv, i as int).contains(k)
                        <==> base.contains(k) || typespecv_types(self@).contains(k));
                assert(tv[i as int] == typespec_v(self.arguments@[i as int]));
                assert(typespecsv_types(tv, i as int) == typespecv_types(tv[i as int]).union(
                    typespecsv_types(tv, i as int + 1),
                ));
            }
            let ghost pre = receiver@;
            self.arguments[i].imports(receiver);
            proof {
                assert forall|k: TypeV|
                    receiver@.contains(k) || typespecsv_types(tv, i as int + 1).contains(k) <==> base.contains(
                        k,
                    ) || typespecv_types(self@).contains(k) by {
                    assert(receiver@.contains(k) <==> pre.contains(k) || typespecv_types(
                        typespec_v(self.arguments@[i as int]),
                    ).contains(k));
                    assert(pre.contains(k) || typespecsv_types(tv, i as int).contains(k) <==> base.contains(
                        k,
                    ) || typespecv_types(self@).contains(k));
                    assert(typespecsv_types(tv, i as int).contains(k) <==> typespecv_types(
                        tv[i as int],
                    ).contains(k) || typespecsv_types(tv, i as int + 1).contains(k));
                };
            }
            i = i + 1;
        }
        proof {
            broadcast use lemma_typespecs_v_len;

            assert(typespecsv_types(tv, self.arguments@.len() as int) == Set::<TypeV>::empty());
        }
    }
}

fn import_variables(vars: &Vec<Variable>, receiver: &mut TypeSet)
    requires
        old(receiver).wf(),
    ensures
        final(receiver).wf(),
        forall|k: TypeV|
            final(receiver)@.contains(k) <==> old(receiver)@.contains(k) || varsv_imports(
                vars_v(vars@),
                0,
            ).contains(k),
    decreases *vars,
{
    let ghost base = receiver@;
    let ghost vv = vars_v(vars@);
    let mut j: usize = 0;
    while j < vars.len()
        invariant
            receiver.wf(),
            vv == vars_v(vars@),
            j <= vars@.len(),
            forall|k: TypeV|
                #![auto]
                receiver@.contains(k) || varsv_imports(vv, j as int).contains(k) <==> base.contains(
                    k,
                ) || varsv_imports(vv, 0).contains(k),
        decreases vars@.len() - j,
    {
        proof {
            broadcast use lemma_vars_v_len, lemma_vars_v_index;

            assert(vv[j as int] == var_v(vars@[j as int]));
            assert(varsv_imports(vv, j as int) == varv_imports(vv[j as int]).union(
                varsv_imports(vv, j as int + 1),
            ));
        }
        match &vars[j] {
            Variable::TypeSpec(t) => {
                let ghost pre = receiver@;
                t.imports(receiver);
                proof {
                    assert forall|k: TypeV|
                        receiver@.contains(k) || varsv_imports(vv, j as int + 1).contains(k) <==> base.contains(
                            k,
                        ) || varsv_imports(vv, 0).contains(k) by {
                        assert(receiver@.contains(k) <==> pre.contains(k) || typespecv_types(
                            typespec_v(*t),
                        ).contains(k));
                        assert(pre.contains(k) || varsv_imports(vv, j as int).contains(k) <==> base.contains(
                            k,
                        ) || varsv_imports(vv, 0).contains(k));
                        assert(varv_imports(vv[j as int]) == typespecv_types(typespec_v(*t)));
                    };
                }
            },
            _ => {
                proof {
                    assert(varv_imports(vv[j as int]) == Set::<TypeV>::empty());
                    assert forall|k: TypeV|
                        receiver@.contains(k) || varsv_imports(vv, j as int + 1).contains(k) <==> base.contains(
                            k,
                        ) || varsv_imports(vv, 0).contains(k) by {
                        assert(receiver@.contains(k) || varsv_imports(vv, j as int).contains(k)
                            <==> base.contains(k) || varsv_imports(vv, 0).contains(k));
                    };
                }
            },
        }
        j = j + 1;
    }
    proof {
        broadcast use lemma_vars_v_len;

        assert(varsv_imports(vv, vars@.len() as int) == Set::<TypeV>::empty());
    }
}

impl Statement {
    /// Record the types this statement mentions: the type variables of its
    /// format parts and everything its nested statements mention.
    pub fn imports(&self, receiver: &mut TypeSet)
        requires
            old(receiver).wf(),
        ensures
            final(receiver).wf(),
            forall|k: TypeV|
                final(receiver)@.contains(k) <==> old(receiver)@.contains(k) || stmtv_imports(
                    self@,
                ).contains(k),
        decreases *self,
    {
        let ghost base = receiver@;
        let ghost pv = parts_v(self.parts@);
        let mut i: usize = 0;
        while i < self.parts.len()
            invariant
                receiver.wf(),
                pv == parts_v(self.parts@),
                i <= self.parts@.len(),
                forall|k: TypeV|
                    #![auto]
                    receiver@.contains(k) || partsv_imports(pv, i as int).contains(k) <==> base.contains(
                        k,
                    ) || stmtv_imports(self@).contains(k),
            decreases self.parts@.len() - i,
        {
            proof {
                broadcast use lemma_parts_v_len, lemma_parts_v_index;

                assert(pv[i as int] == part_v(self.parts@[i as int]));
                assert(partsv_imports(pv, i as int) == partv_imports(pv[i as int]).union(
                    partsv_imports(pv, i as int + 1),
                ));
            }
            let ghost pre = receiver@;
            match &self.parts[i] {
                StatementPart::Format(f, vars) => {
                    import_variables(vars, receiver);
                    proof {
                        assert forall|k: TypeV|
                            receiver@.contains(k) || partsv_imports(pv, i as int + 1).contains(k)
                                <==> base.contains(k) || stmtv_imports(self@).contains(k) by {
                            assert(receiver@.contains(k) <==> pre.contains(k) || varsv_imports(
                                vars_v(vars@),
                                0,
                            ).contains(k));
                            assert(pre.contains(k) || partsv_imports(pv, i as int).contains(k)
                                <==> base.contains(k) || stmtv_imports(self@).contains(k));
                            assert(partv_imports(pv[i as int]) == varsv_imports(vars_v(vars@), 0));
                        };
                    }
                },
                StatementPart::Statement(st) => {
                    st.imports(receiver);
                    proof {
                        assert forall|k: TypeV|
                            receiver@.contains(k) || partsv_imports(pv, i as int + 1).contains(k)
                                <==> base.contains(k) || stmtv_imports(self@).contains(k) by {
                            assert(receiver@.contains(k) <==> pre.contains(k) || stmtv_imports(
                                stmt_v(*st),
                            ).contains(k));
                            assert(pre.contains(k) || partsv_imports(pv, i as int).contains(k)
                                <==> base.contains(k) || stmtv_imports(self@).contains(k));
                            assert(partv_imports(pv[i as int]) == stmtv_imports(stmt_v(*st)));
                        };
                    }
                },
                _ => {
                    proof {
                        assert(partv_imports(pv[i as int]) == Set::<TypeV>::empty());
                        assert forall|k: TypeV|
                            receiver@.contains(k) || partsv_imports(pv, i as int + 1).contains(k)
                                <==> base.contains(k) || stmtv_imports(self@).contains(k) by {
                            assert(receiver@.contains(k) || partsv_imports(pv, i as int).contains(
                                k,
                            ) <==> base.contains(k) || stmtv_imports(self@).contains(k));
                        };
                    }
                },
            }
            i = i + 1;
        }
        proof {
            broadcast use lemma_parts_v_len;

            assert(partsv_imports(pv, self.parts@.len() as int) == Set::<TypeV>::empty());
        }
    }
}

impl Imports for Section {
    open spec fn imported(&self) -> Set<TypeV> {
        sectionv_imports(section_v(*self))
    }

    fn imports(&self, receiver: &mut TypeSet)
        decreases *self,
    {
        match self {
            Section::Block(b) => {
                b.imports(receiver);
            },
            Section::Statement(st) => {
                st.imports(receiver);
            },
            Section::Spacing => {},
        }
    }
}

impl Imports for Sections {
    open spec fn imported(&self) -> Set<TypeV> {
        sectionsv_imports(secs_v(*self).sections, 0)
    }

    fn imports(&self, receiver: &mut TypeSet)
        decreases *self,
    {
        let ghost base = receiver@;
        let ghost sv = sections_v(self.sections@);
        let mut i: usize = 0;
        while i < self.sections.len()
            invariant
                receiver.wf(),
                sv == sections_v(self.sections@),
                i <= self.sections@.len(),
                forall|k: TypeV|
                    #![auto]
                    receiver@.contains(k) || sectionsv_imports(sv, i as int).contains(k) <==> base.contains(k) || self.imported().contains(k),
            decreases self.sections@.len() - i,
        {
            proof {
                broadcast use lemma_sections_v_len, lemma_sections_v_index;

                assert(sv[i as int] == section_v(self.sections@[i as int]));
                assert(sectionsv_imports(sv, i as int) == sectionv_imports(sv[i as int]).union(sectionsv_imports(sv, i as int + 1)));
                assert((self.sections@[i as int]).imported() == sectionv_imports(sv[i as int]));
            }
            let ghost pre = receiver@;
            let sec = &self.sections[i];
            sec.imports(receiver);
            proof {
                assert(sec.imported() == sectionv_imports(sv[i as int]));
                assert forall|k: TypeV|
                    receiver@.contains(k) || sectionsv_imports(sv, i as int + 1).contains(k) <==> base.contains(k) || self.imported().contains(k) by {
                    assert(pre.contains(k) || sectionsv_imports(sv, i as int).contains(k) <==> base.contains(k) || self.imported().contains(k));
                    assert(sectionsv_imports(sv, i as int).contains(k) <==> sectionv_imports(
                        sv[i as int],
                    ).contains(k) || sectionsv_imports(sv, i as int + 1).contains(k));
                    assert(receiver@.contains(k) <==> pre.contains(k) || sec.imported().contains(
                        k,
                    ));
                };
            }
            i = i + 1;
        }
        proof {
            broadcast use lemma_sections_v_len;

            assert(sectionsv_imports(sv, self.sections@.len() as int) == Set::<TypeV>::empty());
        }
    }
}

impl Block {
    /// Record the types this block mentions.
    pub fn imports(&self, receiver: &mut TypeSet)
        requires
            old(receiver).wf(),
        ensures
            final(receiver).wf(),
            forall|k: TypeV|
                final(receiver)@.contains(k) <==> old(receiver)@.contains(k) || blockv_imports(
                    self@,
                ).contains(k),
        decreases *self,
    {
        match &self.open {
            Some(o) => {
                o.imports(receiver);
            },
            None => {},
        }
        match &self.close {
            Some(c) => {
                c.imports(receiver);
            },
            None => {},
        }
        self.sections.imports(receiver);
    }
}

impl Imports for AnnotationSpec {
    open spec fn imported(&self) -> Set<TypeV> {
        annov_imports(anno_v(*self))
    }

    fn imports(&self, receiver: &mut TypeSet)
        decreases *self,
    {
        let ghost base = receiver@;
        self.type_.imports(receiver);
        let ghost av = stmts_v(self.arguments@);
        proof {
            assert(self.imported() == typespecv_types(typespec_v(self.type_)).union(
                stmtsv_imports(av, 0),
            ));
        }
        let mut i: usize = 0;
        while i < self.arguments.len()
            invariant
                receiver.wf(),
                av == stmts_v(self.arguments@),
                i <= self.arguments@.len(),
                forall|k: TypeV|
                    #![auto]
                    receiver@.contains(k) || stmtsv_imports(av, i as int).contains(k) <==> base.contains(k) || self.imported().contains(k),
            decreases self.arguments@.len() - i,
        {
            proof {
                broadcast use lemma_stmts_v_len, lemma_stmts_v_index;

                assert(av[i as int] == stmt_v(self.arguments@[i as int]));
                assert(stmtsv_imports(av, i as int) == stmtv_imports(av[i as int]).union(stmtsv_imports(av, i as int + 1)));
            }
            let ghost pre = receiver@;
            self.arguments[i].imports(receiver);
            proof {
                assert forall|k: TypeV|
                    receiver@.contains(k) || stmtsv_imports(av, i as int + 1).contains(k) <==> base.contains(k)
                        || self.imported().contains(k) by {
                    assert(receiver@.contains(k) <==> pre.contains(k) || stmtv_imports(av[i as int]).contains(k));
                    assert(pre.contains(k) || stmtsv_imports(av, i as int).contains(k) <==> base.contains(k)
                        || self.imported().contains(k));
                    assert(stmtsv_imports(av, i as int).contains(k) <==> stmtv_imports(av[i as int]).contains(k)
                        || stmtsv_imports(av, i as int + 1).contains(k));
                };
            }
            i = i + 1;
        }
        proof {
            broadcast use lemma_stmts_v_len;

            assert(stmtsv_imports(av, self.arguments@.len() as int) == Set::<TypeV>::empty());
        }
    }
}

impl Imports for ArgumentSpec {
    open spec fn imported(&self) -> Set<TypeV> {
        argspecv_imports(argspec_v(*self))
    }

    fn imports(&self, receiver: &mut TypeSet)
        decreases *self,
    {
        let ghost base = receiver@;
        self.type_.imports(receiver);
        let ghost av = annos_v(self.annotations@);
        proof {
            assert(self.imported() == typespecv_types(typespec_v(self.type_)).union(
                annosv_imports(av, 0),
            ));
        }
        let mut i: usize = 0;
        while i < self.annotations.len()
            invariant
                receiver.wf(),
                av == annos_v(self.annotations@),
                i <= self.annotations@.len(),
                forall|k: TypeV|
                    #![auto]
                    receiver@.contains(k) || annosv_imports(av, i as int).contains(k) <==> base.contains(k) || self.imported().contains(k),
            decreases self.annotations@.len() - i,
        {
            proof {
                broadcast use lemma_annos_v_len, lemma_annos_v_index;

                assert(av[i as int] == anno_v(self.annotations@[i as int]));
                assert(annosv_imports(av, i as int) == annov_imports(av[i as int]).union(
                    annosv_imports(av, i as int + 1),
                ));
                assert((self.annotations@[i as int]).imported() == annov_imports(av[i as int]));
            }
            let ghost pre = receiver@;
            self.annotations[i].imports(receiver);
            proof {
                assert forall|k: TypeV|
                    receiver@.contains(k) || annosv_imports(av, i as int + 1).contains(k) <==> base.contains(k)
                        || self.imported().contains(k) by {
                    assert(receiver@.contains(k) <==> pre.contains(k) || annov_imports(av[i as int]).contains(k));
                    assert(pre.contains(k) || annosv_imports(av, i as int).contains(k) <==> base.contains(k)
                        || self.imported().contains(k));
                    assert(annosv_imports(av, i as int).contains(k) <==> annov_imports(av[i as int]).contains(k)
                        || annosv_imports(av, i as int + 1).contains(k));
                };
            }
            i = i + 1;
        }
        proof {
            broadcast use lemma_annos_v_len;

            assert(annosv_imports(av, self.annotations@.len() as int) == Set::<TypeV>::empty());
        }
    }
}

impl Imports for ConstructorSpec {
    open spec fn imported(&self) -> Set<TypeV> {
        ctorv_imports(ctor_v(*self))
    }

    fn imports(&self, receiver: &mut TypeSet)
        decreases *self,
    {
        let ghost base = receiver@;
        self.sections.imports(receiver);
        let ghost av = annos_v(self.annotations@);
        let ghost gv = argspecs_v(self.arguments@);
        proof {
            assert(self.sections.imported() == sectionsv_imports(secs_v(self.sections).sections, 0));
            assert(self.imported() == sectionsv_imports(secs_v(self.sections).sections, 0).union(
                annosv_imports(av, 0),
            ).union(argspecsv_imports(gv, 0)));
        }
        let mut i: usize = 0;
        while i < self.annotations.len()
            invariant
                receiver.wf(),
                av == annos_v(self.annotations@),
                gv == argspecs_v(self.arguments@),
                i <= self.annotations@.len(),
                forall|k: TypeV|
                    #![auto]
                    receiver@.contains(k) || annosv_imports(av, i as int).contains(k)
                        || argspecsv_imports(gv, 0).contains(k) <==> base.contains(k)
                        || self.imported().contains(k),
            decreases self.annotations@.len() - i,
        {
            proof {
                broadcast use lemma_annos_v_len, lemma_annos_v_index;

                assert(av[i as int] == anno_v(self.annotations@[i as int]));
                assert(annosv_imports(av, i as int) == annov_imports(av[i as int]).union(
                    annosv_imports(av, i as int + 1),
                ));
                assert((self.annotations@[i as int]).imported() == annov_imports(av[i as int]));
            }
            let ghost pre = receiver@;
            self.annotations[i].imports(receiver);
            proof {
                assert forall|k: TypeV|
                    receiver@.contains(k) || annosv_imports(av, i as int + 1).contains(k) || argspecsv_imports(gv, 0).contains(k) <==> base.contains(k)
                        || self.imported().contains(k) by {
                    assert(receiver@.contains(k) <==> pre.contains(k) || annov_imports(av[i as int]).contains(k));
                    assert(pre.contains(k) || annosv_imports(av, i as int).contains(k) || argspecsv_imports(gv, 0).contains(k) <==> base.contains(k)
                        || self.imported().contains(k));
                    assert(annosv_imports(av, i as int).contains(k) <==> annov_imports(av[i as int]).contains(k)
                        || annosv_imports(av, i as int + 1).contains(k));
                };
            }
            i = i + 1;
        }
        proof {
            broadcast use lemma_annos_v_len;

            assert(annosv_imports(av, self.annotations@.len() as int) == Set::<TypeV>::empty());
        }
        let mut j: usize = 0;
        while j < self.arguments.len()
            invariant
                receiver.wf(),
                gv == argspecs_v(self.arguments@),
                j <= self.arguments@.len(),
                forall|k: TypeV|
                    #![auto]
                    receiver@.contains(k) || argspecsv_imports(gv, j as int).contains(k) <==> base.contains(k) || self.imported().contains(k),
            decreases self.arguments@.len() - j,
        {
            proof {
                broadcast use lemma_argspecs_v_len, lemma_argspecs_v_index;

                assert(gv[j as int] == argspec_v(self.arguments@[j as int]));
                assert(argspecsv_imports(gv, j as int) == argspecv_imports(gv[j as int]).union(
                    argspecsv_imports(gv, j as int + 1),
                ));
                assert((self.arguments@[j as int]).imported() == argspecv_imports(gv[j as int]));
            }
            let ghost pre = receiver@;
            self.arguments[j].imports(receiver);
            proof {
                assert forall|k: TypeV|
                    receiver@.contains(k) || argspecsv_imports(gv, j as int + 1).contains(k) <==> base.contains(k)
                        || self.imported().contains(k) by {
                    assert(receiver@.contains(k) <==> pre.contains(k) || argspecv_imports(gv[j as int]).contains(k));
                    assert(pre.contains(k) || argspecsv_imports(gv, j as int).contains(k) <==> base.contains(k)
                        || self.imported().contains(k));
                    assert(argspecsv_imports(gv, j as int).contains(k) <==> argspecv_imports(gv[j as int]).contains(k)
                        || argspecsv_imports(gv, j as int + 1).contains(k));
                };
            }
            j = j + 1;
        }
        proof {
            broadcast use lemma_argspecs_v_len;

            assert(argspecsv_imports(gv, self.arguments@.len() as int) == Set::<TypeV>::empty());
        }
    }
}

impl Imports for MethodSpec {
    open spec fn imported(&self) -> Set<TypeV> {
        methodv_imports(method_v(*self))
    }

    fn imports(&self, receiver: &mut TypeSet)
        decreases *self,
    {
        let ghost base = receiver@;
        match &self.returns {
            Some(t) => {
                t.imports(receiver);
            },
            None => {},
        }
        let ghost gv = argspecs_v(self.arguments@);
        proof {
            assert(self.imported() == (match method_v(*self).returns {
                Some(t) => typespecv_types(t),
                None => Set::<TypeV>::empty(),
            }).union(argspecsv_imports(gv, 0)).union(
                sectionsv_imports(secs_v(self.sections).sections, 0),
            ));
        }
        let mut j: usize = 0;
        while j < self.arguments.len()
            invariant
                receiver.wf(),
                gv == argspecs_v(self.arguments@),
                j <= self.arguments@.len(),
                forall|k: TypeV|
                    #![auto]
                    receiver@.contains(k) || argspecsv_imports(gv, j as int).contains(k)
                        || sectionsv_imports(secs_v(self.sections).sections, 0).contains(k) <==> base.contains(k) || self.imported().contains(k),
            decreases self.arguments@.len() - j,
        {
            proof {
                broadcast use lemma_argspecs_v_len, lemma_argspecs_v_index;

                assert(gv[j as int] == argspec_v(self.arguments@[j as int]));
                assert(argspecsv_imports(gv, j as int) == argspecv_imports(gv[j as int]).union(
                    argspecsv_imports(gv, j as int + 1),
                ));
                assert((self.arguments@[j as int]).imported() == argspecv_imports(gv[j as int]));
            }
            let ghost pre = receiver@;
            self.arguments[j].imports(receiver);
            proof {
                assert forall|k: TypeV|
                    receiver@.contains(k) || argspecsv_imports(gv, j as int + 1).contains(k) || sectionsv_imports(secs_v(self.sections).sections, 0).contains(k) <==> base.contains(k)
                        || self.imported().contains(k) by {
                    assert(receiver@.contains(k) <==> pre.contains(k) || argspecv_imports(gv[j as int]).contains(k));
                    assert(pre.contains(k) || argspecsv_imports(gv, j as int).contains(k) || sectionsv_imports(secs_v(self.sections).sections, 0).contains(k) <==> base.contains(k)
                        || self.imported().contains(k));
                    assert(argspecsv_imports(gv, j as int).contains(k) <==> argspecv_imports(gv[j as int]).contains(k)
                        || argspecsv_imports(gv, j as int + 1).contains(k));
                };
            }
            j = j + 1;
        }
        proof {
            broadcast use lemma_argspecs_v_len;

            assert(j as int == self.arguments@.len() as int);
            assert(argspecsv_imports(gv, j as int) == Set::<TypeV>::empty());
        }
        let ghost mid = receiver@;
        self.sections.imports(receiver);
        proof {
            assert(self.sections.imported() == sectionsv_imports(
                secs_v(self.sections).sections,
                0,
            ));
            assert forall|k: TypeV|
                receiver@.contains(k) <==> old(receiver)@.contains(k) || self.imported().contains(
                    k,
                ) by {
                assert(receiver@.contains(k) <==> mid.contains(k) || sectionsv_imports(
                    secs_v(self.sections).sections,
                    0,
                ).contains(k));
                assert(mid.contains(k) || argspecsv_imports(gv, j as int).contains(k)
                    || sectionsv_imports(secs_v(self.sections).sections, 0).contains(k) <==> base.contains(
                    k,
                ) || self.imported().contains(k));
            };
        }
    }
}

impl InterfaceSpec {
    /// Record the types this interface mentions.
    pub fn imports(&self, receiver: &mut TypeSet)
        requires
            old(receiver).wf(),
        ensures
            final(receiver).wf(),
            forall|k: TypeV|
                final(receiver)@.contains(k) <==> old(receiver)@.contains(k) || ifacev_imports(
                    self@,
                ).contains(k),
        decreases *self,
    {
        let ghost base = receiver@;
        let ghost av = annos_v(self.annotations@);
        let ghost ev = elems_v(self.elements@);
        proof {
            assert(ifacev_imports(self@) == annosv_imports(av, 0).union(elemsv_imports(ev, 0)));
        }
        let mut i: usize = 0;
        while i < self.annotations.len()
            invariant
                receiver.wf(),
                av == annos_v(self.annotations@),
                ev == elems_v(self.elements@),
                i <= self.annotations@.len(),
                forall|k: TypeV|
                    #![auto]
                    receiver@.contains(k) || annosv_imports(av, i as int).contains(k)
                        || elemsv_imports(ev, 0).contains(k) <==> base.contains(k)
                        || ifacev_imports(self@).contains(k),
            decreases self.annotations@.len() - i,
        {
            proof {
                broadcast use lemma_annos_v_len, lemma_annos_v_index;

                assert(av[i as int] == anno_v(self.annotations@[i as int]));
                assert(annosv_imports(av, i as int) == annov_imports(av[i as int]).union(
                    annosv_imports(av, i as int + 1),
                ));
                assert((self.annotations@[i as int]).imported() == annov_imports(av[i as int]));
            }
            let ghost pre = receiver@;
            self.annotations[i].imports(receiver);
            proof {
                assert forall|k: TypeV|
                    receiver@.contains(k) || annosv_imports(av, i as int + 1).contains(k) || elemsv_imports(ev, 0).contains(k) <==> base.contains(k)
                        || ifacev_imports(self@).contains(k) by {
                    assert(receiver@.contains(k) <==> pre.contains(k) || annov_imports(av[i as int]).contains(k));
                    assert(pre.contains(k) || annosv_imports(av, i as int).contains(k) || elemsv_imports(ev, 0).contains(k) <==> base.contains(k)
                        || ifacev_imports(self@).contains(k));
                    assert(annosv_imports(av, i as int).contains(k) <==> annov_imports(av[i as int]).contains(k)
                        || annosv_imports(av, i as int + 1).contains(k));
                };
            }
            i = i + 1;
        }
        proof {
            broadcast use lemma_annos_v_len;

            assert(annosv_imports(av, self.annotations@.len() as int) == Set::<TypeV>::empty());
        }
        let mut j: usize = 0;
        while j < self.elements.len()
            invariant
                receiver.wf(),
                ev == elems_v(self.elements@),
                j <= self.elements@.len(),
                forall|k: TypeV|
                    #![auto]
                    receiver@.contains(k) || elemsv_imports(ev, j as int).contains(k) <==> base.contains(k) || ifacev_imports(self@).contains(k),
            decreases self.elements@.len() - j,
        {
            proof {
                broadcast use lemma_elems_v_len, lemma_elems_v_index;

                assert(ev[j as int] == elem_v(self.elements@[j as int]));
                assert(elemsv_imports(ev, j as int) == elemv_imports(ev[j as int]).union(
                    elemsv_imports(ev, j as int + 1),
                ));
                assert((self.elements@[j as int]).imported() == elemv_imports(ev[j as int]));
            }
            let ghost pre = receiver@;
            self.elements[j].imports(receiver);
            proof {
                assert forall|k: TypeV|
                    receiver@.contains(k) || elemsv_imports(ev, j as int + 1).contains(k) <==> base.contains(k)
                        || ifacev_imports(self@).contains(k) by {
                    assert(receiver@.contains(k) <==> pre.contains(k) || elemv_imports(ev[j as int]).contains(k));
                    assert(pre.contains(k) || elemsv_imports(ev, j as int).contains(k) <==> base.contains(k)
                        || ifacev_imports(self@).contains(k));
                    assert(elemsv_imports(ev, j as int).contains(k) <==> elemv_imports(ev[j as int]).contains(k)
                        || elemsv_imports(ev, j as int + 1).contains(k));
                };
            }
            j = j + 1;
        }
        proof {
            broadcast use lemma_elems_v_len;

            assert(elemsv_imports(ev, self.elements@.len() as int) == Set::<TypeV>::empty());
        }
    }
}

impl ClassSpec {
    /// Record the types this class mentions: its annotations, constructors
    /// and methods.
    pub fn imports(&self, receiver: &mut TypeSet)
        requires
            old(receiver).wf(),
        ensures
            final(receiver).wf(),
            forall|k: TypeV|
                final(receiver)@.contains(k) <==> old(receiver)@.contains(k) || classv_imports(
                    self@,
                ).contains(k),
        decreases *self,
    {
        let ghost base = receiver@;
        let ghost av = annos_v(self.annotations@);
        let ghost cv = ctors_v(self.constructors@);
        let ghost mv = methods_v(self.methods@);
        proof {
            assert(classv_imports(self@) == annosv_imports(av, 0).union(
                ctorsv_imports(cv, 0),
            ).union(methodsv_imports(mv, 0)));
        }
        let mut i: usize = 0;
        while i < self.annotations.len()
            invariant
                receiver.wf(),
                av == annos_v(self.annotations@),
                cv == ctors_v(self.constructors@),
                mv == methods_v(self.methods@),
                i <= self.annotations@.len(),
                forall|k: TypeV|
                    #![auto]
                    receiver@.contains(k) || annosv_imports(av, i as int).contains(k)
                        || ctorsv_imports(cv, 0).contains(k) || methodsv_imports(mv, 0).contains(k)
                        <==> base.contains(k) || classv_imports(self@).contains(k),
            decreases self.annotations@.len() - i,
        {
            proof {
                broadcast use lemma_annos_v_len, lemma_annos_v_index;

                assert(av[i as int] == anno_v(self.annotations@[i as int]));
                assert(annosv_imports(av, i as int) == annov_imports(av[i as int]).union(
                    annosv_imports(av, i as int + 1),
                ));
                assert((self.annotations@[i as int]).imported() == annov_imports(av[i as int]));
            }
            let ghost pre = receiver@;
            self.annotations[i].imports(receiver);
            proof {
                assert forall|k: TypeV|
                    receiver@.contains(k) || annosv_imports(av, i as int + 1).contains(k) || ctorsv_imports(cv, 0).contains(k) || methodsv_imports(mv, 0).contains(k) <==> base.contains(k)
                        || classv_imports(self@).contains(k) by {
                    assert(receiver@.contains(k) <==> pre.contains(k) || annov_imports(av[i as int]).contains(k));
                    assert(pre.contains(k) || annosv_imports(av, i as int).contains(k) || ctorsv_imports(cv, 0).contains(k) || methodsv_imports(mv, 0).contains(k) <==> base.contains(k)
                        || classv_imports(self@).contains(k));
                    assert(annosv_imports(av, i as int).contains(k) <==> annov_imports(av[i as int]).contains(k)
                        || annosv_imports(av, i as int + 1).contains(k));
                };
            }
            i = i + 1;
        }
        proof {
            broadcast use lemma_annos_v_len;

            assert(annosv_imports(av, self.annotations@.len() as int) == Set::<TypeV>::empty());
        }
        let mut j: usize = 0;
        while j < self.constructors.len()
            invariant
                receiver.wf(),
                cv == ctors_v(self.constructors@),
                mv == methods_v(self.methods@),
                j <= self.constructors@.len(),
                forall|k: TypeV|
                    #![auto]
                    receiver@.contains(k) || ctorsv_imports(cv, j as int).contains(k)
                        || methodsv_imports(mv, 0).contains(k) <==> base.contains(k)
                        || classv_imports(self@).contains(k),
            decreases self.constructors@.len() - j,
        {
            proof {
                broadcast use lemma_ctors_v_len, lemma_ctors_v_index;

                assert(cv[j as int] == ctor_v(self.constructors@[j as int]));
                assert(ctorsv_imports(cv, j as int) == ctorv_imports(cv[j as int]).union(
                    ctorsv_imports(cv, j as int + 1),
                ));
                assert((self.constructors@[j as int]).imported() == ctorv_imports(cv[j as int]));
            }
            let ghost pre = receiver@;
            self.constructors[j].imports(receiver);
            proof {
                assert forall|k: TypeV|
                    receiver@.contains(k) || ctorsv_imports(cv, j as int + 1).contains(k) || methodsv_imports(mv, 0).contains(k) <==> base.contains(k)
                        || classv_imports(self@).contains(k) by {
                    assert(receiver@.contains(k) <==> pre.contains(k) || ctorv_imports(cv[j as int]).contains(k));
                    assert(pre.contains(k) || ctorsv_imports(cv, j as int).contains(k) || methodsv_imports(mv, 0).contains(k) <==> base.contains(k)
                        || classv_imports(self@).contains(k));
                    assert(ctorsv_imports(cv, j as int).contains(k) <==> ctorv_imports(cv[j as int]).contains(k)
                        || ctorsv_imports(cv, j as int + 1).contains(k));
                };
            }
            j = j + 1;
        }
        proof {
            broadcast use lemma_ctors_v_len;

            assert(ctorsv_imports(cv, self.constructors@.len() as int) == Set::<TypeV>::empty());
        }
        let mut h: usize = 0;
        while h < self.methods.len()
            invariant
                receiver.wf(),
                mv == methods_v(self.methods@),
                h <= self.methods@.len(),
                forall|k: TypeV|
                    #![auto]
                    receiver@.contains(k) || methodsv_imports(mv, h as int).contains(k) <==> base.contains(k) || classv_imports(self@).contains(k),
            decreases self.methods@.len() - h,
        {
            proof {
                broadcast use lemma_methods_v_len, lemma_methods_v_index;

                assert(mv[h as int] == method_v(self.methods@[h as int]));
                assert(methodsv_imports(mv, h as int) == methodv_imports(mv[h as int]).union(
                    methodsv_imports(mv, h as int + 1),
                ));
                assert((self.methods@[h as int]).imported() == methodv_imports(mv[h as int]));
            }
            let ghost pre = receiver@;
            self.methods[h].imports(receiver);
            proof {
                assert forall|k: TypeV|
                    receiver@.contains(k) || methodsv_imports(mv, h as int + 1).contains(k) <==> base.contains(k)
                        || classv_imports(self@).contains(k) by {
                    assert(receiver@.contains(k) <==> pre.contains(k) || methodv_imports(mv[h as int]).contains(k));
                    assert(pre.contains(k) || methodsv_imports(mv, h as int).contains(k) <==> base.contains(k)
                        || classv_imports(self@).contains(k));
                    assert(methodsv_imports(mv, h as int).contains(k) <==> methodv_imports(mv[h as int]).contains(k)
                        || methodsv_imports(mv, h as int + 1).contains(k));
                };
            }
            h = h + 1;
        }
        proof {
            broadcast use lemma_methods_v_len;

            assert(methodsv_imports(mv, self.methods@.len() as int) == Set::<TypeV>::empty());
        }
    }
}

impl Imports for ElementSpec {
    open spec fn imported(&self) -> Set<TypeV> {
        elemv_imports(elem_v(*self))
    }

    fn imports(&self, receiver: &mut TypeSet)
        decreases *self,
    {
        match self {
            ElementSpec::Class(c) => {
                c.imports(receiver);
            },
            ElementSpec::Interface(i) => {
                i.imports(receiver);
            },
        }
    }
}


/// The opening statement of a constructor: annotations, modifiers, the
/// enclosing class name, and the argument list in parentheses.
pub open spec fn ctor_open_v(c: ConstructorSpecV, enclosing: Seq<char>) -> StatementV {
    StatementV {
        parts: annos_parts(c.annotations) + mods_part(c.modifiers) + seq![
            StatementPartV::Format("$L("@, seq![VariableV::Literal(enclosing)]),
        ] + arguments_part(argspec_stmts(c.arguments)) + seq![
            StatementPartV::Format(")"@, Seq::empty()),
        ],
    }
}

/// The block a constructor renders to: its opening statement over its body.
pub open spec fn ctor_block_v(c: ConstructorSpecV, enclosing: Seq<char>) -> BlockV {
    BlockV { open_stmt: Some(ctor_open_v(c, enclosing)), close_stmt: None, sections: c.sections }
}

/// The opening statement of a method: annotations, modifiers, the return
/// type (or `void`), the name, and the argument list in parentheses.
pub open spec fn method_open_v(m: MethodSpecV) -> StatementV {
    StatementV {
        parts: annos_parts(m.annotations) + mods_part(m.modifiers) + (match m.returns {
            None => seq![StatementPartV::Format("void "@, Seq::empty())],
            Some(t) => seq![StatementPartV::Format("$T "@, seq![VariableV::TypeSpec(t)])],
        }) + seq![StatementPartV::Format("$L("@, seq![VariableV::Literal(m.name)])]
            + arguments_part(argspec_stmts(m.arguments)) + seq![
            StatementPartV::Format(")"@, Seq::empty()),
        ],
    }
}

/// The block a method renders to: its opening statement over its body.
pub open spec fn method_block_v(m: MethodSpecV) -> BlockV {
    BlockV { open_stmt: Some(method_open_v(m)), close_stmt: None, sections: m.sections }
}

/// The blocks of a list of elements, separated by empty lines; `first` says
/// whether nothing has been emitted before them.
pub open spec fn elem_sections_v(es: Seq<ElementSpecV>, i: int, first: bool) -> Seq<SectionV>
    decreases es, es.len() - i,
{
    if i < 0 || i >= es.len() {
        Seq::empty()
    } else {
        (if first {
            Seq::empty()
        } else {
            seq![SectionV::Spacing]
        }) + seq![SectionV::Block(elem_block_v(es[i]))] + elem_sections_v(es, i + 1, false)
    }
}

/// The blocks of a list of constructors, separated by empty lines.
pub open spec fn ctor_sections_v(cs: Seq<ConstructorSpecV>, i: int, first: bool, name: Seq<char>) -> Seq<
    SectionV,
>
    decreases cs.len() - i,
{
    if i < 0 || i >= cs.len() {
        Seq::empty()
    } else {
        (if first {
            Seq::empty()
        } else {
            seq![SectionV::Spacing]
        }) + seq![SectionV::Block(ctor_block_v(cs[i], name))] + ctor_sections_v(cs, i + 1, false, name)
    }
}

/// The blocks of a list of methods, separated by empty lines.
pub open spec fn method_sections_v(ms: Seq<MethodSpecV>, i: int, first: bool) -> Seq<SectionV>
    decreases ms.len() - i,
{
    if i < 0 || i >= ms.len() {
        Seq::empty()
    } else {
        (if first {
            Seq::empty()
        } else {
            seq![SectionV::Spacing]
        }) + seq![SectionV::Block(method_block_v(ms[i]))] + method_sections_v(ms, i + 1, false)
    }
}

/// The opening statement of an interface declaration.
pub open spec fn iface_open_v(i: InterfaceSpecV) -> StatementV {
    StatementV {
        parts: annos_parts(i.annotations) + mods_part(i.modifiers) + seq![
            StatementPartV::Format("interface $L"@, seq![VariableV::Literal(i.name)]),
        ],
    }
}

/// The block an interface renders to: its header over its nested elements.
pub open spec fn iface_block_v(i: InterfaceSpecV) -> BlockV
    decreases i,
{
    BlockV {
        open_stmt: Some(iface_open_v(i)),
        close_stmt: None,
        sections: SectionsV { sections: elem_sections_v(i.elements, 0, true) },
    }
}

/// The opening statement of a class declaration.
pub open spec fn class_open_v(c: ClassSpecV) -> StatementV {
    StatementV {
        parts: annos_parts(c.annotations) + mods_part(c.modifiers) + seq![
            StatementPartV::Format("class $L"@, seq![VariableV::Literal(c.name)]),
        ],
    }
}

/// The block a class renders to: its header over its fields, constructors,
/// methods and nested elements, with empty lines between members after the
/// first.
pub open spec fn class_block_v(c: ClassSpecV) -> BlockV
    decreases c,
{
    BlockV {
        open_stmt: Some(class_open_v(c)),
        close_stmt: None,
        sections: SectionsV {
            sections: Seq::new(
                c.fields.len(),
                |k: int| SectionV::Statement(field_stmt(c.fields[k])),
            ) + ctor_sections_v(c.constructors, 0, c.fields.len() == 0, c.name)
                + method_sections_v(c.methods, 0, c.fields.len() == 0 && c.constructors.len() == 0)
                + elem_sections_v(
                c.elements,
                0,
                c.fields.len() == 0 && c.constructors.len() == 0 && c.methods.len() == 0,
            ),
        },
    }
}

/// The block a top-level element renders to.
pub open spec fn elem_block_v(e: ElementSpecV) -> BlockV
    decreases e,
{
    match e {
        ElementSpecV::Class(c) => class_block_v(c),
        ElementSpecV::Interface(i) => iface_block_v(i),
    }
}

impl ConstructorSpec {
    /// Render this constructor as a block of the class named `enclosing`.
    pub fn as_block(&self, enclosing: &str) -> (r: Result<Block, JavaError>)
        ensures
            r matches Ok(b) && b@ == ctor_block_v(self@, enclosing@),
    {
        let mut open = Statement::new();
        match add_annotations(&self.annotations, &mut open) {
            Ok(u) => {},
            Err(e) => {
                return Err(e);
            },
        }
        if !self.modifiers.is_empty() {
            match self.modifiers.format() {
                Ok(m) => {
                    open.push("$L ", var1(Variable::Literal(m)));
                },
                Err(e) => {
                    return Err(e);
                },
            }
        }
        open.push("$L(", var1(Variable::Literal(enclosing.to_owned())));
        match add_arguments(&self.arguments, &mut open) {
            Ok(u) => {},
            Err(e) => {
                return Err(e);
            },
        }
        open.push(")", Vec::new());
        proof {
            broadcast use lemma_argspecs_v_len, lemma_argspecs_v_index;

            assert(Seq::new(self.arguments@.len(), |k: int| self.arguments@[k].statement_v())
                =~= argspec_stmts(argspecs_v(self.arguments@)));
            let target = ctor_open_v(self@, enclosing@);
            assert(open@.parts.len() == target.parts.len());
            assert forall|k: int| 0 <= k < target.parts.len() implies open@.parts[k]
                == target.parts[k] by {
                assert(target.parts[k] == (annos_parts(annos_v(self.annotations@)) + mods_part(
                    self.modifiers@,
                ) + seq![StatementPartV::Format("$L("@, seq![VariableV::Literal(enclosing@)])]
                    + arguments_part(argspec_stmts(argspecs_v(self.arguments@))) + seq![
                    StatementPartV::Format(")"@, Seq::<VariableV>::empty()),
                ])[k]);
            };
            assert(open@.parts =~= target.parts);
            assert(open@ =~~= target);
        }
        let mut block = Block::new();
        block.open(open);
        block.extend(&self.sections);
        proof {
            assert(block@.sections.sections =~= ctor_block_v(self@, enclosing@).sections.sections);
            assert(block@ =~~= ctor_block_v(self@, enclosing@));
        }
        Ok(block)
    }
}

impl MethodSpec {
    /// Render this method as a block.
    pub fn as_block(&self) -> (r: Result<Block, JavaError>)
        ensures
            r matches Ok(b) && b@ == method_block_v(self@),
    {
        let mut open = Statement::new();
        match add_annotations(&self.annotations, &mut open) {
            Ok(u) => {},
            Err(e) => {
                return Err(e);
            },
        }
        if !self.modifiers.is_empty() {
            match self.modifiers.format() {
                Ok(m) => {
                    open.push("$L ", var1(Variable::Literal(m)));
                },
                Err(e) => {
                    return Err(e);
                },
            }
        }
        match &self.returns {
            None => {
                open.push("void ", Vec::new());
            },
            Some(t) => {
                open.push("$T ", var1(Variable::TypeSpec(t.clone())));
            },
        }
        open.push("$L(", var1(Variable::Literal(self.name.clone())));
        match add_arguments(&self.arguments, &mut open) {
            Ok(u) => {},
            Err(e) => {
                return Err(e);
            },
        }
        open.push(")", Vec::new());
        proof {
            broadcast use lemma_argspecs_v_len, lemma_argspecs_v_index;

            assert(Seq::new(self.arguments@.len(), |k: int| self.arguments@[k].statement_v())
                =~= argspec_stmts(argspecs_v(self.arguments@)));
            let target = method_open_v(self@);
            assert(open@.parts.len() == target.parts.len());
            assert forall|k: int| 0 <= k < target.parts.len() implies open@.parts[k]
                == target.parts[k] by {
                assert(target.parts[k] == (annos_parts(annos_v(self.annotations@)) + mods_part(
                    self.modifiers@,
                ) + (match method_v(*self).returns {
                    None => seq![StatementPartV::Format("void "@, Seq::<VariableV>::empty())],
                    Some(t) => seq![StatementPartV::Format("$T "@, seq![VariableV::TypeSpec(t)])],
                }) + seq![StatementPartV::Format("$L("@, seq![VariableV::Literal(self.name@)])]
                    + arguments_part(argspec_stmts(argspecs_v(self.arguments@))) + seq![
                    StatementPartV::Format(")"@, Seq::<VariableV>::empty()),
                ])[k]);
            };
            assert(open@.parts =~= target.parts);
            assert(open@ =~~= target);
        }
        let mut block = Block::new();
        block.open(open);
        block.extend(&self.sections);
        proof {
            assert(block@.sections.sections =~= method_block_v(self@).sections.sections);
            assert(block@ =~~= method_block_v(self@));
        }
        Ok(block)
    }
}

impl InterfaceSpec {
    /// Render this interface as a block.
    pub fn as_block(&self) -> (r: Result<Block, JavaError>)
        ensures
            r matches Ok(b) && b@ == iface_block_v(self@),
        decreases *self,
    {
        let mut open = Statement::new();
        match add_annotations(&self.annotations, &mut open) {
            Ok(u) => {},
            Err(e) => {
                return Err(e);
            },
        }
        if !self.modifiers.is_empty() {
            match self.modifiers.format() {
                Ok(m) => {
                    open.push("$L ", var1(Variable::Literal(m)));
                },
                Err(e) => {
                    return Err(e);
                },
            }
        }
        open.push("interface $L", var1(Variable::Literal(self.name.clone())));
        proof {
            let target = iface_open_v(self@);
            assert(open@.parts.len() == target.parts.len());
            assert forall|k: int| 0 <= k < target.parts.len() implies open@.parts[k]
                == target.parts[k] by {
                assert(target.parts[k] == (annos_parts(annos_v(self.annotations@)) + mods_part(
                    self.modifiers@,
                ) + seq![
                    StatementPartV::Format("interface $L"@, seq![VariableV::Literal(self.name@)]),
                ])[k]);
            };
            assert(open@.parts =~= target.parts);
            assert(open@ =~~= target);
        }
        let mut block = Block::new();
        block.open(open);
        let ghost ev = elems_v(self.elements@);
        let mut first: bool = true;
        let mut i: usize = 0;
        while i < self.elements.len()
            invariant
                ev == elems_v(self.elements@),
                i <= self.elements@.len(),
                first == (i == 0),
                block@.open_stmt == Some(iface_open_v(self@)),
                block@.close_stmt is None,
                block@.sections.sections + elem_sections_v(ev, i as int, first)
                    =~= elem_sections_v(ev, 0, true),
            decreases self.elements@.len() - i,
        {
            proof {
                broadcast use lemma_elems_v_len, lemma_elems_v_index;

                assert(ev[i as int] == elem_v(self.elements@[i as int]));
            }
            let ghost pre = block@.sections.sections;
            if first {
                first = false;
            } else {
                block.push_spacing();
            }
            match self.elements[i].as_block() {
                Ok(b) => {
                    block.push_block(&b);
                },
                Err(e) => {
                    return Err(e);
                },
            }
            proof {
                assert(block@.sections.sections + elem_sections_v(ev, i + 1, false)
                    =~= elem_sections_v(ev, 0, true));
            }
            i = i + 1;
        }
        proof {
            broadcast use lemma_elems_v_len;

            assert(elem_sections_v(ev, self.elements@.len() as int, first)
                == Seq::<SectionV>::empty());
            assert(block@.sections.sections =~= elem_sections_v(ev, 0, true));
            assert(block@ =~~= iface_block_v(self@));
        }
        Ok(block)
    }
}

impl ClassSpec {
    /// Render this class as a block.
    pub fn as_block(&self) -> (r: Result<Block, JavaError>)
        ensures
            r matches Ok(b) && b@ == class_block_v(self@),
        decreases *self,
    {
        let mut open = Statement::new();
        match add_annotations(&self.annotations, &mut open) {
            Ok(u) => {},
            Err(e) => {
                return Err(e);
            },
        }
        if !self.modifiers.is_empty() {
            match self.modifiers.format() {
                Ok(m) => {
                    open.push("$L ", var1(Variable::Literal(m)));
                },
                Err(e) => {
                    return Err(e);
                },
            }
        }
        open.push("class $L", var1(Variable::Literal(self.name.clone())));
        proof {
            let target = class_open_v(self@);
            assert(open@.parts.len() == target.parts.len());
            assert forall|k: int| 0 <= k < target.parts.len() implies open@.parts[k]
                == target.parts[k] by {
                assert(target.parts[k] == (annos_parts(annos_v(self.annotations@)) + mods_part(
                    self.modifiers@,
                ) + seq![StatementPartV::Format("class $L"@, seq![VariableV::Literal(self.name@)])])[k]);
            };
            assert(open@.parts =~= target.parts);
            assert(open@ =~~= target);
        }
        let mut block = Block::new();
        block.open(open);
        let ghost fv = fields_v(self.fields@);
        let ghost cv = ctors_v(self.constructors@);
        let ghost mv = methods_v(self.methods@);
        let ghost ev = elems_v(self.elements@);
        let ghost fieldsecs = Seq::new(fv.len(), |k: int| SectionV::Statement(field_stmt(fv[k])));
        let mut i: usize = 0;
        while i < self.fields.len()
            invariant
                fv == fields_v(self.fields@),
                fieldsecs == Seq::new(fv.len(), |k: int| SectionV::Statement(field_stmt(fv[k]))),
                i <= self.fields@.len(),
                block@.open_stmt == Some(class_open_v(self@)),
                block@.close_stmt is None,
                block@.sections.sections =~= fieldsecs.subrange(0, i as int),
            decreases self.fields@.len() - i,
        {
            proof {
                broadcast use lemma_fields_v_len, lemma_fields_v_index;

                assert(fv[i as int] == field_v(self.fields@[i as int]));
            }
            let ghost pre = block@.sections.sections;
            match self.fields[i].as_statement() {
                Ok(st) => {
                    block.push_statement(&st);
                },
                Err(e) => {
                    return Err(e);
                },
            }
            proof {
                assert(block@.sections.sections =~= fieldsecs.subrange(0, i + 1));
            }
            i = i + 1;
        }
        proof {
            broadcast use lemma_fields_v_len;

            assert(block@.sections.sections =~= fieldsecs);
        }
        let mut first: bool = self.fields.len() == 0;
        let ghost first0 = self.fields@.len() == 0;
        let mut j: usize = 0;
        while j < self.constructors.len()
            invariant
                cv == ctors_v(self.constructors@),
                j <= self.constructors@.len(),
                first == (first0 && j == 0),
                block@.open_stmt == Some(class_open_v(self@)),
                block@.close_stmt is None,
                block@.sections.sections + ctor_sections_v(cv, j as int, first, self.name@)
                    =~= fieldsecs + ctor_sections_v(cv, 0, first0, self.name@),
            decreases self.constructors@.len() - j,
        {
            proof {
                broadcast use lemma_ctors_v_len, lemma_ctors_v_index;

                assert(cv[j as int] == ctor_v(self.constructors@[j as int]));
            }
            if first {
                first = false;
            } else {
                block.push_spacing();
            }
            match self.constructors[j].as_block(self.name.as_str()) {
                Ok(b) => {
                    block.push_block(&b);
                },
                Err(e) => {
                    return Err(e);
                },
            }
            proof {
                assert(block@.sections.sections + ctor_sections_v(cv, j + 1, false, self.name@)
                    =~= fieldsecs + ctor_sections_v(cv, 0, first0, self.name@));
            }
            j = j + 1;
        }
        proof {
            broadcast use lemma_ctors_v_len;

            assert(ctor_sections_v(cv, self.constructors@.len() as int, first, self.name@)
                == Seq::<SectionV>::empty());
            assert(block@.sections.sections =~= fieldsecs + ctor_sections_v(
                cv,
                0,
                first0,
                self.name@,
            ));
        }
        let ghost first1 = first0 && self.constructors@.len() == 0;
        let mut h: usize = 0;
        while h < self.methods.len()
            invariant
                mv == methods_v(self.methods@),
                h <= self.methods@.len(),
                first == (first1 && h == 0),
                block@.open_stmt == Some(class_open_v(self@)),
                block@.close_stmt is None,
                block@.sections.sections + method_sections_v(mv, h as int, first) =~= fieldsecs
                    + ctor_sections_v(cv, 0, first0, self.name@) + method_sections_v(
                    mv,
                    0,
                    first1,
                ),
            decreases self.methods@.len() - h,
        {
            proof {
                broadcast use lemma_methods_v_len, lemma_methods_v_index;

                assert(mv[h as int] == method_v(self.methods@[h as int]));
            }
            if first {
                first = false;
            } else {
                block.push_spacing();
            }
            match self.methods[h].as_block() {
                Ok(b) => {
                    block.push_block(&b);
                },
                Err(e) => {
                    return Err(e);
                },
            }
            proof {
                assert(block@.sections.sections + method_sections_v(mv, h + 1, false) =~= fieldsecs
                    + ctor_sections_v(cv, 0, first0, self.name@) + method_sections_v(
                    mv,
                    0,
                    first1,
                ));
            }
            h = h + 1;
        }
        proof {
            broadcast use lemma_methods_v_len;

            assert(method_sections_v(mv, self.methods@.len() as int, first)
                == Seq::<SectionV>::empty());
            assert(block@.sections.sections =~= fieldsecs + ctor_sections_v(
                cv,
                0,
                first0,
                self.name@,
            ) + method_sections_v(mv, 0, first1));
        }
        let ghost first2 = first1 && self.methods@.len() == 0;
        let mut g: usize = 0;
        while g < self.elements.len()
            invariant
                ev == elems_v(self.elements@),
                g <= self.elements@.len(),
                first == (first2 && g == 0),
                block@.open_stmt == Some(class_open_v(self@)),
                block@.close_stmt is None,
                block@.sections.sections + elem_sections_v(ev, g as int, first) =~= fieldsecs
                    + ctor_sections_v(cv, 0, first0, self.name@) + method_sections_v(mv, 0, first1)
                    + elem_sections_v(ev, 0, first2),
            decreases self.elements@.len() - g,
        {
            proof {
                broadcast use lemma_elems_v_len, lemma_elems_v_index;

                assert(ev[g as int] == elem_v(self.elements@[g as int]));
            }
            if first {
                first = false;
            } else {
                block.push_spacing();
            }
            match self.elements[g].as_block() {
                Ok(b) => {
                    block.push_block(&b);
                },
                Err(e) => {
                    return Err(e);
                },
            }
            proof {
                assert(block@.sections.sections + elem_sections_v(ev, g + 1, false) =~= fieldsecs
                    + ctor_sections_v(cv, 0, first0, self.name@) + method_sections_v(mv, 0, first1)
                    + elem_sections_v(ev, 0, first2));
            }
            g = g + 1;
        }
        proof {
            broadcast use lemma_elems_v_len;

            assert(elem_sections_v(ev, self.elements@.len() as int, first)
                == Seq::<SectionV>::empty());
            assert(block@.sections.sections =~= class_block_v(self@).sections.sections);
            assert(block@ =~~= class_block_v(self@));
        }
        Ok(block)
    }
}

impl ElementSpec {
    /// Render this element as a block.
    pub fn as_block(&self) -> (r: Result<Block, JavaError>)
        ensures
            r matches Ok(b) && b@ == elem_block_v(self@),
        decreases *self,
    {
        match self {
            ElementSpec::Class(c) => c.as_block(),
            ElementSpec::Interface(i) => i.as_block(),
        }
    }
}


/// Strictly sorted sequences with the same members are equal.
proof fn lemma_sorted_typevs_unique(a: Seq<TypeV>, b: Seq<TypeV>)
    requires
        sorted_typevs(a),
        sorted_typevs(b),
        forall|k: TypeV| a.contains(k) <==> b.contains(k),
    ensures
        a == b,
    decreases a.len(),
{
    if a.len() == 0 {
        if b.len() > 0 {
            assert(b.contains(b[0]));
            assert(a.contains(b[0]));
        }
        assert(a =~= b);
    } else {
        assert(b.contains(a[0])) by {
            assert(a.contains(a[0]));
        };
        let j = choose|j: int| 0 <= j < b.len() && b[j] == a[0];
        assert(a.contains(b[0])) by {
            assert(b.contains(b[0]));
        };
        let i = choose|i: int| 0 <= i < a.len() && a[i] == b[0];
        if j > 0 && i > 0 {
            assert(typev_lt(b[0], b[j]));
            assert(typev_lt(a[0], a[i]));
            lemma_typev_lt_irrefl(a[0]);
            lemma_typev_lt_trans(a[0], b[0], a[0]);
            assert(false);
        }
        assert(a[0] == b[0]);
        let at = a.drop_first();
        let bt = b.drop_first();
        assert forall|k: TypeV| at.contains(k) <==> bt.contains(k) by {
            if at.contains(k) {
                let x = choose|x: int| 0 <= x < at.len() && at[x] == k;
                assert(a[x + 1] == k);
                assert(typev_lt(a[0], k));
                lemma_typev_lt_irrefl(k);
                assert(a.contains(k));
                assert(b.contains(k));
                let y = choose|y: int| 0 <= y < b.len() && b[y] == k;
                assert(y != 0);
                assert(bt[y - 1] == k);
                assert(bt.contains(k));
            }
            if bt.contains(k) {
                let x = choose|x: int| 0 <= x < bt.len() && bt[x] == k;
                assert(b[x + 1] == k);
                assert(typev_lt(b[0], k));
                lemma_typev_lt_irrefl(k);
                assert(b.contains(k));
                assert(a.contains(k));
                let y = choose|y: int| 0 <= y < a.len() && a[y] == k;
                assert(y != 0);
                assert(at[y - 1] == k);
                assert(at.contains(k));
            }
        };
        assert(sorted_typevs(at)) by {
            assert(forall|p: int, q: int|
                0 <= p < q < at.len() ==> at[p] == a[p + 1] && at[q] == a[q + 1]);
        };
        assert(sorted_typevs(bt)) by {
            assert(forall|p: int, q: int|
                0 <= p < q < bt.len() ==> bt[p] == b[p + 1] && bt[q] == b[q + 1]);
        };
        lemma_sorted_typevs_unique(at, bt);
        assert forall|x: int| 0 <= x < a.len() implies a[x] == b[x] by {
            if x > 0 {
                assert(a[x] == at[x - 1]);
                assert(b[x] == bt[x - 1]);
            }
        };
        assert(a =~= b);
    }
}

/// Whether a type is imported by a file: some element mentions it and it is
/// neither in `java.lang` nor in the file's own package.
pub open spec fn file_import_filter(f: FileSpecV, k: TypeV) -> bool {
    elemsv_imports(f.elements, 0).contains(k) && k.package != "java.lang"@ && k.package != f.package
}

/// The file's import list: the imported types in ascending type order.
pub open spec fn file_import_list(f: FileSpecV) -> Seq<TypeV> {
    choose|q: Seq<TypeV>|
        sorted_typevs(q) && (forall|k: TypeV| #[trigger] q.contains(k) <==> file_import_filter(f, k))
}

/// The package statement of a file.
pub open spec fn pkg_stmt_v(package: Seq<char>) -> StatementV {
    StatementV {
        parts: seq![StatementPartV::Format("package $L"@, seq![VariableV::Literal(package)])],
    }
}

/// One import statement.
pub open spec fn import_stmt_v(t: TypeV) -> StatementV {
    StatementV {
        parts: seq![
            StatementPartV::Format(
                "import $L.$L"@,
                seq![VariableV::Literal(t.package), VariableV::Literal(t.name)],
            ),
        ],
    }
}

/// The blocks of a file's elements, in order, with no separation.
pub open spec fn file_elem_sections_v(es: Seq<ElementSpecV>, i: int) -> Seq<SectionV>
    decreases es, es.len() - i,
{
    if i < 0 || i >= es.len() {
        Seq::empty()
    } else {
        seq![SectionV::Block(elem_block_v(es[i]))] + file_elem_sections_v(es, i + 1)
    }
}

/// The sections of a rendered file: the package statement, the import list
/// when it is not empty, and the element blocks.
pub open spec fn file_sections_v(f: FileSpecV, imps: Seq<TypeV>) -> Seq<SectionV> {
    seq![SectionV::Statement(pkg_stmt_v(f.package)), SectionV::Spacing] + (if imps.len() > 0 {
        Seq::new(imps.len(), |k: int| SectionV::Statement(import_stmt_v(imps[k]))) + seq![
            SectionV::Spacing,
        ]
    } else {
        Seq::empty()
    }) + file_elem_sections_v(f.elements, 0)
}

/// The formatted lines from position `i` on, each closed by a newline.
pub open spec fn lines_text(lines: Seq<Seq<char>>, i: int) -> Seq<char>
    decreases lines.len() - i,
{
    if i < 0 || i >= lines.len() {
        Seq::empty()
    } else {
        lines[i] + seq!['\n'] + lines_text(lines, i + 1)
    }
}

/// The text a file renders to: its sections formatted with two-space
/// indentation, one line per formatted line.
pub open spec fn file_fmt(f: FileSpecV) -> Result<Seq<char>, JavaError> {
    match secs_lines(file_sections_v(f, file_import_list(f)), 0, ""@, "  "@) {
        Err(e) => Err(e),
        Ok(lines) => Ok(lines_text(lines, 0)),
    }
}

impl FileSpec {
    /// Render this file as Java source text.
    pub fn format(&self) -> (r: Result<String, JavaError>)
        ensures
            match file_fmt(self@) {
                Ok(cs) => r matches Ok(s) && s@ == cs,
                Err(e) => r matches Err(e2) && e2 == e,
            },
    {
        let ghost ev = elems_v(self.elements@);
        let mut sections = Sections::new();
        let mut pkg_stmt = Statement::new();
        pkg_stmt.push("package $L", var1(Variable::Literal(self.package.clone())));
        sections.push_statement(&pkg_stmt);
        sections.push_spacing();
        proof {
            assert(pkg_stmt@ =~~= pkg_stmt_v(self@.package));
            assert(sections@.sections =~= seq![
                SectionV::Statement(pkg_stmt_v(self@.package)),
                SectionV::Spacing,
            ]);
        }
        let mut receiver = TypeSet::new();
        let ghost rbase = receiver@;
        let mut i: usize = 0;
        while i < self.elements.len()
            invariant
                ev == elems_v(self.elements@),
                i <= self.elements@.len(),
                receiver.wf(),
                forall|k: TypeV|
                    #![auto]
                    receiver@.contains(k) || elemsv_imports(ev, i as int).contains(k)
                        <==> rbase.contains(k) || elemsv_imports(ev, 0).contains(k),
            decreases self.elements@.len() - i,
        {
            proof {
                broadcast use lemma_elems_v_len, lemma_elems_v_index;

                assert(ev[i as int] == elem_v(self.elements@[i as int]));
                assert(elemsv_imports(ev, i as int) == elemv_imports(ev[i as int]).union(
                    elemsv_imports(ev, i as int + 1),
                ));
            }
            let ghost pre = receiver@;
            match &self.elements[i] {
                ElementSpec::Class(class_spec) => {
                    class_spec.imports(&mut receiver);
                },
                ElementSpec::Interface(interface_spec) => {
                    interface_spec.imports(&mut receiver);
                },
            }
            proof {
                assert forall|k: TypeV|
                    receiver@.contains(k) || elemsv_imports(ev, i as int + 1).contains(k)
                        <==> rbase.contains(k) || elemsv_imports(ev, 0).contains(k) by {
                    assert(receiver@.contains(k) <==> pre.contains(k) || elemv_imports(
                        ev[i as int],
                    ).contains(k));
                    assert(pre.contains(k) || elemsv_imports(ev, i as int).contains(k)
                        <==> rbase.contains(k) || elemsv_imports(ev, 0).contains(k));
                };
            }
            i = i + 1;
        }
        proof {
            broadcast use lemma_elems_v_len;

            assert(i as int == self.elements@.len() as int);
            assert(elemsv_imports(ev, i as int) == Set::<TypeV>::empty());
            assert(rbase.len() == 0);
            assert forall|k: TypeV|
                #[trigger] receiver@.contains(k) <==> elemsv_imports(ev, 0).contains(k) by {
                assert(receiver@.contains(k) || elemsv_imports(ev, i as int).contains(k)
                    <==> rbase.contains(k) || elemsv_imports(ev, 0).contains(k));
                assert(!rbase.contains(k));
            };
        }
        let held = receiver.items();
        let ghost rv = types_v(held@);
        proof {
            assert(rv == receiver@);
        }
        let mut imports: Vec<Type> = Vec::new();
        let mut j: usize = 0;
        while j < held.len()
            invariant
                rv == types_v(held@),
                sorted_typevs(rv),
                forall|k: TypeV|
                    #[trigger] rv.contains(k) <==> elemsv_imports(ev, 0).contains(k),
                j <= held@.len(),
                sorted_typevs(types_v(imports@)),
                forall|k: TypeV|
                    #[trigger] types_v(imports@).contains(k) <==> (exists|x: int|
                        0 <= x < j && rv[x] == k) && k.package != "java.lang"@ && k.package
                        != self.package@,
            decreases held@.len() - j,
        {
            let t = &held[j];
            proof {
                assert(types_v(held@)[j as int] == t@);
            }
            let keep = !crate::text::str_eq(t.package.as_str(), "java.lang") && !crate::text::str_eq(
                t.package.as_str(),
                self.package.as_str(),
            );
            let ghost prev = types_v(imports@);
            if keep {
                imports.push(t.clone());
                proof {
                    assert(types_v(imports@) =~= prev.push(rv[j as int]));
                    assert(sorted_typevs(types_v(imports@))) by {
                        let cur = types_v(imports@);
                        assert forall|a: int, b: int| 0 <= a < b < cur.len() implies typev_lt(
                            cur[a],
                            cur[b],
                        ) by {
                            if b == cur.len() - 1 {
                                assert(cur[a] == prev[a]);
                                assert(prev.contains(prev[a]));
                                let x = choose|x: int| 0 <= x < j && rv[x] == prev[a];
                                assert(typev_lt(rv[x], rv[j as int]));
                            }
                        };
                    };
                    assert forall|k: TypeV| #[trigger]
                        types_v(imports@).contains(k) <==> (exists|x: int|
                            0 <= x < j + 1 && rv[x] == k) && k.package != "java.lang"@ && k.package
                            != self.package@ by {
                        let cur = types_v(imports@);
                        if cur.contains(k) {
                            let a = choose|a: int| 0 <= a < cur.len() && cur[a] == k;
                            if a < prev.len() {
                                assert(prev.contains(k)) by {
                                    assert(prev[a] == k);
                                };
                            } else {
                                assert(k == rv[j as int]);
                                assert(0 <= j < j + 1 && rv[j as int] == k);
                            }
                        }
                        if (exists|x: int| 0 <= x < j + 1 && rv[x] == k) && k.package
                            != "java.lang"@ && k.package != self.package@ {
                            let x = choose|x: int| 0 <= x < j + 1 && rv[x] == k;
                            if x < j {
                                assert(prev.contains(k));
                                let a = choose|a: int| 0 <= a < prev.len() && prev[a] == k;
                                assert(cur[a] == k);
                                assert(cur.contains(k));
                            } else {
                                assert(cur[cur.len() - 1] == k);
                                assert(cur.contains(k));
                            }
                        }
                    };
                }
            } else {
                proof {
                    assert forall|k: TypeV| #[trigger]
                        types_v(imports@).contains(k) <==> (exists|x: int|
                            0 <= x < j + 1 && rv[x] == k) && k.package != "java.lang"@ && k.package
                            != self.package@ by {
                        if (exists|x: int| 0 <= x < j + 1 && rv[x] == k) && k.package
                            != "java.lang"@ && k.package != self.package@ {
                            let x = choose|x: int| 0 <= x < j + 1 && rv[x] == k;
                            assert(x < j) by {
                                if x == j {
                                    assert(rv[j as int] == t@);
                                }
                            };
                        }
                    };
                }
            }
            j = j + 1;
        }
        let ghost imps = types_v(imports@);
        proof {
            assert forall|k: TypeV| #[trigger]
                imps.contains(k) <==> file_import_filter(self@, k) by {
                if (exists|x: int| 0 <= x < held@.len() && rv[x] == k) {
                    assert(rv.contains(k));
                }
                if rv.contains(k) {
                    let x = choose|x: int| 0 <= x < rv.len() && rv[x] == k;
                    assert(0 <= x < held@.len() && rv[x] == k);
                }
            };
            assert(sorted_typevs(imps) && (forall|k: TypeV|
                #[trigger] imps.contains(k) <==> file_import_filter(self@, k)));
            lemma_sorted_typevs_unique(imps, file_import_list(self@));
            assert(imps == file_import_list(self@));
        }
        let ghost impsecs = Seq::new(
            imps.len(),
            |k: int| SectionV::Statement(import_stmt_v(imps[k])),
        );
        if imports.len() > 0 {
            let ghost secs0 = sections@.sections;
            let mut h: usize = 0;
            while h < imports.len()
                invariant
                    imps == types_v(imports@),
                    impsecs == Seq::new(
                        imps.len(),
                        |k: int| SectionV::Statement(import_stmt_v(imps[k])),
                    ),
                    h <= imports@.len(),
                    sections@.sections =~= secs0 + impsecs.subrange(0, h as int),
                decreases imports@.len() - h,
            {
                let t = &imports[h];
                let mut st = Statement::new();
                st.push(
                    "import $L.$L",
                    var2(
                        Variable::Literal(t.package.clone()),
                        Variable::Literal(t.name.clone()),
                    ),
                );
                sections.push_statement(&st);
                proof {
                    assert(types_v(imports@)[h as int] == t@);
                    assert(st@ =~~= import_stmt_v(imps[h as int]));
                    assert(sections@.sections =~= secs0 + impsecs.subrange(0, h + 1));
                }
                h = h + 1;
            }
            sections.push_spacing();
            proof {
                assert(impsecs.subrange(0, impsecs.len() as int) =~= impsecs);
                assert(sections@.sections =~= secs0 + impsecs + seq![SectionV::Spacing]);
            }
        }
        let ghost prefix = sections@.sections;
        proof {
            assert(prefix =~= seq![
                SectionV::Statement(pkg_stmt_v(self@.package)),
                SectionV::Spacing,
            ] + (if imps.len() > 0 {
                impsecs + seq![SectionV::Spacing]
            } else {
                Seq::<SectionV>::empty()
            }));
        }
        let mut g: usize = 0;
        while g < self.elements.len()
            invariant
                ev == elems_v(self.elements@),
                g <= self.elements@.len(),
                sections@.sections + file_elem_sections_v(ev, g as int) =~= prefix
                    + file_elem_sections_v(ev, 0),
            decreases self.elements@.len() - g,
        {
            proof {
                broadcast use lemma_elems_v_len, lemma_elems_v_index;

                assert(ev[g as int] == elem_v(self.elements@[g as int]));
            }
            match self.elements[g].as_block() {
                Ok(b) => {
                    sections.push_block(&b);
                },
                Err(e) => {
                    return Err(e);
                },
            }
            proof {
                assert(sections@.sections + file_elem_sections_v(ev, g + 1) =~= prefix
                    + file_elem_sections_v(ev, 0));
            }
            g = g + 1;
        }
        proof {
            broadcast use lemma_elems_v_len;

            assert(file_elem_sections_v(ev, self.elements@.len() as int) == Seq::<SectionV>::empty());
            assert(sections@.sections =~= file_sections_v(self@, file_import_list(self@)));
        }
        let lines = match sections.format("", "  ") {
            Ok(lines) => lines,
            Err(e) => {
                return Err(e);
            },
        };
        let ghost ldv = lines.deep_view();
        let mut out: Vec<char> = Vec::new();
        let mut q: usize = 0;
        while q < lines.len()
            invariant
                ldv == lines.deep_view(),
                q <= lines@.len(),
                out@ + lines_text(ldv, q as int) == lines_text(ldv, 0),
            decreases lines@.len() - q,
        {
            push_str_chars(&mut out, lines[q].as_str());
            out.push('\n');
            proof {
                assert(ldv[q as int] == lines@[q as int]@);
                assert(out@ + lines_text(ldv, q + 1) =~= lines_text(ldv, 0));
            }
            q = q + 1;
        }
        proof {
            assert(out@ =~= lines_text(ldv, 0));
        }
        Ok(chars_to_string(&out))
    }
}

} // verus!
