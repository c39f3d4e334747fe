//! Small pieces of the schema-language model: lexer tokens, path segments,
//! field initialisers, and the flavor markers.

use vstd::prelude::*;

use crate::text::{push_str_chars, str_eq};

verus! {

broadcast use vstd::seq::group_seq_axioms, vstd::std_specs::vec::group_vec_axioms;

/// A token of the schema language.
#[derive(Debug)]
pub enum Token {
    Identifier(String),
    TypeIdentifier(String),
    PackageDocComment(Vec<String>),
    DocComment(Vec<String>),
    Number(String),
    LeftCurly,
    RightCurly,
    LeftBracket,
    RightBracket,
    LeftParen,
    RightParen,
    SemiColon,
    Colon,
    Equal,
    Comma,
    Dot,
    Scope,
    QuestionMark,
    Hash,
    Bang,
    RightArrow,
    CodeOpen,
    CodeClose,
    CodeContent(String),
    String(String),
    InterfaceKeyword,
    TypeKeyword,
    EnumKeyword,
    TupleKeyword,
    ServiceKeyword,
    UseKeyword,
    AsKeyword,
    AnyKeyword,
    FloatKeyword,
    DoubleKeyword,
    Signed32,
    Signed64,
    Unsigned32,
    Unsigned64,
    BooleanKeyword,
    StringKeyword,
    DateTimeKeyword,
    BytesKeyword,
    StreamKeyword,
}

/// The keyword-safe identifier a keyword token maps to, if it is one.
pub open spec fn keyword_safe_spec(t: Token) -> Option<Seq<char>> {
    match t {
        Token::AnyKeyword => Some("_any"@),
        Token::InterfaceKeyword => Some("_interface"@),
        Token::TypeKeyword => Some("_type"@),
        Token::EnumKeyword => Some("_enum"@),
        Token::TupleKeyword => Some("_tuple"@),
        Token::ServiceKeyword => Some("_service"@),
        Token::UseKeyword => Some("_use"@),
        Token::AsKeyword => Some("_as"@),
        Token::FloatKeyword => Some("_float"@),
        Token::DoubleKeyword => Some("_double"@),
        Token::Signed32 => Some("_i32"@),
        Token::Signed64 => Some("_i64"@),
        Token::Unsigned32 => Some("_u32"@),
        Token::Unsigned64 => Some("_u64"@),
        Token::BooleanKeyword => Some("_boolean"@),
        Token::StringKeyword => Some("_string"@),
        Token::DateTimeKeyword => Some("_datetime"@),
        Token::BytesKeyword => Some("_bytes"@),
        Token::StreamKeyword => Some("_stream"@),
        _ => None,
    }
}

impl Token {
    /// The keyword-safe variant of a keyword token: the keyword with a
    /// leading underscore; any other token has none.
    pub fn keyword_safe(&self) -> (r: Option<&'static str>)
        ensures
            match keyword_safe_spec(*self) {
                Some(s) => r matches Some(t) && t@ == s,
                None => r is None,
            },
    {
        let out = match self {
            Token::AnyKeyword => "_any",
            Token::InterfaceKeyword => "_interface",
            Token::TypeKeyword => "_type",
            Token::EnumKeyword => "_enum",
            Token::TupleKeyword => "_tuple",
            Token::ServiceKeyword => "_service",
            Token::UseKeyword => "_use",
            Token::AsKeyword => "_as",
            Token::FloatKeyword => "_float",
            Token::DoubleKeyword => "_double",
            Token::Signed32 => "_i32",
            Token::Signed64 => "_i64",
            Token::Unsigned32 => "_u32",
            Token::Unsigned64 => "_u64",
            Token::BooleanKeyword => "_boolean",
            Token::StringKeyword => "_string",
            Token::DateTimeKeyword => "_datetime",
            Token::BytesKeyword => "_bytes",
            Token::StreamKeyword => "_stream",
            _ => {
                return None;
            },
        };
        Some(out)
    }
}

/// A segment of a service path: a literal, or a named variable with a type.
#[derive(Debug)]
pub enum RpPathSegment {
    Literal { value: String },
    Variable { name: String, ty: String },
}

/// What `path` renders a segment to: the literal as it stands, a variable
/// in curly braces.
pub open spec fn path_segment_chars(s: RpPathSegment) -> Seq<char> {
    match s {
        RpPathSegment::Literal { value } => value@,
        RpPathSegment::Variable { name, ty } => seq!['{'] + name@ + seq!['}'],
    }
}

/// What `id` names: the literal's value, or the variable's name.
pub open spec fn path_segment_id(s: RpPathSegment) -> Seq<char> {
    match s {
        RpPathSegment::Literal { value } => value@,
        RpPathSegment::Variable { name, ty } => name@,
    }
}

impl RpPathSegment {
    /// Render this segment as it appears in a path.
    pub fn path(&self) -> (r: String)
        ensures
            r@ == path_segment_chars(*self),
    {
        match self {
            RpPathSegment::Literal { value } => value.clone(),
            RpPathSegment::Variable { name, ty } => {
                let mut out: Vec<char> = Vec::new();
                out.push('{');
                push_str_chars(&mut out, name.as_str());
                out.push('}');
                proof {
                    assert(out@ =~= path_segment_chars(*self));
                }
                crate::text::chars_to_string(&out)
            },
        }
    }

    /// The identifier this segment binds.
    pub fn id(&self) -> (r: &str)
        ensures
            r@ == path_segment_id(*self),
    {
        match self {
            RpPathSegment::Literal { value } => value.as_str(),
            RpPathSegment::Variable { name, ty } => name.as_str(),
        }
    }
}

/// A parsed path segment, before model conversion.
#[derive(Debug)]
pub enum PathSegment {
    Literal { value: String },
    Variable { name: String, ty: String },
}

impl PathSegment {
    /// Convert this parsed segment into its model form.
    pub fn into_model(self) -> (r: RpPathSegment)
        ensures
            match self {
                PathSegment::Literal { value } => r matches RpPathSegment::Literal {
                    value: v,
                } && v@ == value@,
                PathSegment::Variable { name, ty } => r matches RpPathSegment::Variable {
                    name: n,
                    ty: t,
                } && n@ == name@ && t@ == ty@,
            },
    {
        match self {
            PathSegment::Literal { value } => RpPathSegment::Literal { value },
            PathSegment::Variable { name, ty } => RpPathSegment::Variable { name, ty },
        }
    }
}

/// A parsed field initialiser: a field name with its value text.
#[derive(Debug)]
pub struct FieldInit {
    pub name: String,
    pub value: String,
}

/// A field initialiser in model form.
#[derive(Debug)]
pub struct RpFieldInit {
    pub name: String,
    pub value: String,
}

impl FieldInit {
    /// Convert this parsed initialiser into its model form.
    pub fn into_model(self) -> (r: RpFieldInit)
        ensures
            r.name@ == self.name@,
            r.value@ == self.value@,
    {
        RpFieldInit { name: self.name, value: self.value }
    }
}

/// A fragment of target-language code, tagged with the context it belongs
/// to.
#[derive(Debug)]
pub struct CodeToken {
    pub context: String,
    pub lines: Vec<String>,
}

/// Selection by context.
pub trait ForContext {
    /// What the selection keeps.
    spec fn kept(&self, context: Seq<char>) -> Seq<Seq<char>>;

    /// Keep only the fragments tagged with the given context.
    fn for_context(&self, context: &str) -> (r: Vec<CodeToken>)
        ensures
            Seq::new(r@.len(), |i: int| r@[i].context@) == self.kept(context@),
    ;
}

/// The contexts of the kept fragments, in order.
pub open spec fn contexts_kept(ts: Seq<CodeToken>, context: Seq<char>) -> Seq<Seq<char>>
    decreases ts.len(),
{
    if ts.len() == 0 {
        Seq::empty()
    } else if ts.last().context@ == context {
        contexts_kept(ts.drop_last(), context).push(ts.last().context@)
    } else {
        contexts_kept(ts.drop_last(), context)
    }
}

impl ForContext for Vec<CodeToken> {
    open spec fn kept(&self, context: Seq<char>) -> Seq<Seq<char>> {
        contexts_kept(self@, context)
    }

    fn for_context(&self, context: &str) -> (r: Vec<CodeToken>)
        ensures
            Seq::new(r@.len(), |i: int| r@[i].context@) == self.kept(context@),
    {
        let mut out: Vec<CodeToken> = Vec::new();
        let mut i: usize = 0;
        while i < self.len()
            invariant
                i <= self@.len(),
                Seq::new(out@.len(), |k: int| out@[k].context@) =~= contexts_kept(
                    self@.take(i as int),
                    context@,
                ),
            decreases self@.len() - i,
        {
            let t = &self[i];
            proof {
                assert(self@.take(i as int + 1).drop_last() =~= self@.take(i as int));
                assert(self@.take(i as int + 1).last() == self@[i as int]);
            }
            if str_eq(t.context.as_str(), context) {
                let mut lines: Vec<String> = Vec::new();
                let mut j: usize = 0;
                while j < t.lines.len()
                    invariant
                        j <= t.lines@.len(),
                    decreases t.lines@.len() - j,
                {
                    lines.push(t.lines[j].clone());
                    j = j + 1;
                }
                out.push(CodeToken { context: t.context.clone(), lines });
                proof {
                    assert(Seq::new(out@.len(), |k: int| out@[k].context@) =~= contexts_kept(
                        self@.take(i as int + 1),
                        context@,
                    ));
                }
            } else {
                proof {
                    assert(Seq::new(out@.len(), |k: int| out@[k].context@) =~= contexts_kept(
                        self@.take(i as int + 1),
                        context@,
                    ));
                }
            }
            i = i + 1;
        }
        proof {
            assert(self@.take(self@.len() as int) =~= self@);
        }
        out
    }
}

/// The flavor whose packages are fully qualified.
#[derive(Debug, Clone, Copy, PartialEq, Eq, Structural)]
pub struct CoreFlavor;

/// The flavor the Go backend emits.
#[derive(Debug, Clone, Copy, PartialEq, Eq, Structural)]
pub struct GoFlavor;

} // verus!
