use vstd::prelude::*;

use crate::error::{ValidateError, ValidateErrorV};
use crate::expr::{
    board_view, BinaryOperator, Expr, ExprT, ExprTV, ExprV, FunctionName, LiteralValue,
    LiteralValueV, UnaryOperator, expr_views, lemma_expr_views,
};
use crate::context::{spec_get, spec_insert, Context};
use crate::key::{key_text, ContextKey};

verus! {

#[derive(PartialEq, Eq, Structural, Clone, Copy, Debug)]
pub enum DataType {
    Integer,
    Float,
    String,
    Boolean,
    Timestamp,
    Date,
    Bytes,
    Null,
}

pub open spec fn is_numeric(t: DataType) -> bool {
    t == DataType::Integer || t == DataType::Float
}

/// The name of a type as written in a schema.
pub open spec fn data_type_name(t: DataType) -> Seq<char> {
    match t {
        DataType::Integer => "INTEGER"@,
        DataType::Float => "FLOAT"@,
        DataType::String => "STRING"@,
        DataType::Boolean => "BOOLEAN"@,
        DataType::Timestamp => "TIMESTAMP"@,
        DataType::Date => "DATE"@,
        DataType::Bytes => "BYTES"@,
        DataType::Null => "NULL"@,
    }
}

/// The name of a type as it is displayed: `Integer`, `String`, ...
pub open spec fn data_type_display(t: DataType) -> Seq<char> {
    match t {
        DataType::Integer => "Integer"@,
        DataType::Float => "Float"@,
        DataType::String => "String"@,
        DataType::Boolean => "Boolean"@,
        DataType::Timestamp => "Timestamp"@,
        DataType::Date => "Date"@,
        DataType::Bytes => "Bytes"@,
        DataType::Null => "Null"@,
    }
}

/// The name of an arithmetic operator as it is displayed.
pub open spec fn operator_display(op: BinaryOperator) -> Seq<char> {
    match op {
        BinaryOperator::Plus => "Plus"@,
        BinaryOperator::Minus => "Minus"@,
        BinaryOperator::Multiply => "Multiply"@,
        BinaryOperator::Divide => "Divide"@,
        _ => "Modulus"@,
    }
}

fn operator_text(op: BinaryOperator) -> (r: &'static str)
    ensures
        r@ == operator_display(op),
{
    match op {
        BinaryOperator::Plus => "Plus",
        BinaryOperator::Minus => "Minus",
        BinaryOperator::Multiply => "Multiply",
        BinaryOperator::Divide => "Divide",
        _ => "Modulus",
    }
}

/// The error of an arithmetic operator over non-numeric operands.
pub open spec fn arithmetic_error(op: BinaryOperator) -> ValidateErrorV {
    ValidateErrorV::Expected(
        "the type of both arguments of a binary arithmetic operator expression with operator `"@
            + operator_display(op) + "` to both be numeric"@,
    )
}

impl DataType {
    /// The type as it is displayed.
    pub fn to_string(&self) -> (r: String)
        ensures
            r@ == data_type_display(*self),
    {
        match self {
            DataType::Integer => String::from_str("Integer"),
            DataType::Float => String::from_str("Float"),
            DataType::String => String::from_str("String"),
            DataType::Boolean => String::from_str("Boolean"),
            DataType::Timestamp => String::from_str("Timestamp"),
            DataType::Date => String::from_str("Date"),
            DataType::Bytes => String::from_str("Bytes"),
            DataType::Null => String::from_str("Null"),
        }
    }

    pub fn default() -> (r: DataType)
        ensures
            r == DataType::Null,
    {
        DataType::Null
    }

    pub fn is_numeric(&self) -> (r: bool)
        ensures
            r == is_numeric(*self),
    {
        match self {
            DataType::Integer | DataType::Float => true,
            _ => false,
        }
    }

    pub fn name(&self) -> (r: String)
        ensures
            r@ == data_type_name(*self),
    {
        match self {
            DataType::Integer => String::from_str("INTEGER"),
            DataType::Float => String::from_str("FLOAT"),
            DataType::String => String::from_str("STRING"),
            DataType::Boolean => String::from_str("BOOLEAN"),
            DataType::Timestamp => String::from_str("TIMESTAMP"),
            DataType::Date => String::from_str("DATE"),
            DataType::Bytes => String::from_str("BYTES"),
            DataType::Null => String::from_str("NULL"),
        }
    }

    /// Reads a schema type name; any other name is `UnknownType`.
    pub fn from_str(value: &str) -> (r: Result<DataType, ValidateError>)
        ensures
            match r {
                Ok(t) => data_type_name(t) == value@,
                Err(e) => e@ == ValidateErrorV::UnknownType(value@) && forall|t: DataType|
                    data_type_name(t) != value@,
            },
    {
        let names = [
            DataType::Integer,
            DataType::Float,
            DataType::String,
            DataType::Boolean,
            DataType::Timestamp,
            DataType::Date,
            DataType::Bytes,
            DataType::Null,
        ];
        let mut i: usize = 0;
        while i < 8
            invariant
                names@ == seq![
                    DataType::Integer,
                    DataType::Float,
                    DataType::String,
                    DataType::Boolean,
                    DataType::Timestamp,
                    DataType::Date,
                    DataType::Bytes,
                    DataType::Null,
                ],
                i <= 8,
                forall|j: int| 0 <= j < i ==> data_type_name(#[trigger] names@[j]) != value@,
            decreases 8 - i,
        {
            let t = names[i];
            let n = t.name();
            if crate::key::same_text(n.as_str(), value) {
                return Ok(t);
            }
            i += 1;
        }
        proof {
            assert forall|t: DataType| data_type_name(t) != value@ by {
                match t {
                    DataType::Integer => assert(names@[0] == t),
                    DataType::Float => assert(names@[1] == t),
                    DataType::String => assert(names@[2] == t),
                    DataType::Boolean => assert(names@[3] == t),
                    DataType::Timestamp => assert(names@[4] == t),
                    DataType::Date => assert(names@[5] == t),
                    DataType::Bytes => assert(names@[6] == t),
                    DataType::Null => assert(names@[7] == t),
                }
            }
        }
        Err(ValidateError::UnknownType(value.to_owned()))
    }
}

#[derive(PartialEq, Eq, Structural, Clone, Copy, Debug)]
pub enum Mode {
    Nullable,
    Required,
}

impl Mode {
    pub fn default() -> (r: Mode)
        ensures
            r == Mode::Nullable,
    {
        Mode::Nullable
    }

    pub fn name(&self) -> (r: String)
        ensures
            r@ == (if *self == Mode::Nullable {
                "Nullable"@
            } else {
                "Required"@
            }),
    {
        match self {
            Mode::Nullable => String::from_str("Nullable"),
            Mode::Required => String::from_str("Required"),
        }
    }
}

/// Marks an expression derived from other columns.
#[derive(PartialEq, Eq, Structural, Clone, Copy, Debug)]
pub struct Taint(pub bool);

impl Taint {
    pub fn from(val: bool) -> (r: Taint)
        ensures
            r.0 == val,
    {
        Taint(val)
    }
}

/// The annotation of an expression: its type, nullability, taint, the
/// audiences it may be disclosed to, and the statistics that noise needs.
#[derive(Debug)]
pub struct ExprMeta {
    pub ty: DataType,
    pub mode: Mode,
    pub taint: Taint,
    pub audience: Vec<ContextKey>,
    /// The most rows that share one value of this expression, when known.
    pub max_frequency: Option<u64>,
    /// How much one row can move an aggregate of this expression, when known.
    pub sensitivity: Option<u64>,
}

pub struct ExprMetaV {
    pub ty: DataType,
    pub mode: Mode,
    pub taint: bool,
    pub audience: Seq<Seq<Seq<char>>>,
    pub max_frequency: Option<u64>,
    pub sensitivity: Option<u64>,
}

pub open spec fn keys_view(v: Seq<ContextKey>) -> Seq<Seq<Seq<char>>> {
    v.map_values(|k: ContextKey| k@)
}

impl View for ExprMeta {
    type V = ExprMetaV;

    open spec fn view(&self) -> ExprMetaV {
        ExprMetaV {
            ty: self.ty,
            mode: self.mode,
            taint: self.taint.0,
            audience: keys_view(self.audience@),
            max_frequency: self.max_frequency,
            sensitivity: self.sensitivity,
        }
    }
}

pub fn clone_keys(v: &Vec<ContextKey>) -> (r: Vec<ContextKey>)
    ensures
        keys_view(r@) == keys_view(v@),
{
    let mut out: Vec<ContextKey> = Vec::new();
    let mut i: usize = 0;
    while i < v.len()
        invariant
            i <= v@.len(),
            out@.len() == i,
            forall|j: int| 0 <= j < i ==> out@[j]@ == v@[j]@,
        decreases v@.len() - i,
    {
        out.push(v[i].clone());
        i += 1;
    }
    assert(keys_view(out@) =~= keys_view(v@));
    out
}

impl Clone for ExprMeta {
    fn clone(&self) -> (r: Self)
        ensures
            r@ == self@,
    {
        ExprMeta {
            ty: self.ty,
            mode: self.mode,
            taint: self.taint,
            audience: clone_keys(&self.audience),
            max_frequency: self.max_frequency,
            sensitivity: self.sensitivity,
        }
    }
}

/// Whether `k` is among `v`.
pub fn contains_key(v: &Vec<ContextKey>, k: &ContextKey) -> (r: bool)
    ensures
        r == keys_view(v@).contains(k@),
{
    let mut i: usize = 0;
    while i < v.len()
        invariant
            i <= v@.len(),
            forall|j: int| 0 <= j < i ==> v@[j]@ != k@,
        decreases v@.len() - i,
    {
        if v[i].equals(k) {
            assert(keys_view(v@)[i as int] == k@);
            return true;
        }
        i += 1;
    }
    proof {
        if keys_view(v@).contains(k@) {
            let j = choose|j: int| 0 <= j < keys_view(v@).len() && keys_view(v@)[j] == k@;
            assert(v@[j]@ == k@);
        }
    }
    false
}

/// The members of `a` that are also in `b`, in the order of `a`.
pub open spec fn keep_in(a: Seq<Seq<Seq<char>>>, b: Seq<Seq<Seq<char>>>) -> Seq<Seq<Seq<char>>>
    decreases a.len(),
{
    if a.len() == 0 {
        Seq::empty()
    } else if b.contains(a.last()) {
        keep_in(a.drop_last(), b).push(a.last())
    } else {
        keep_in(a.drop_last(), b)
    }
}

pub proof fn lemma_push_contains<T>(s: Seq<T>, v: T, x: T)
    ensures
        s.push(v).contains(x) <==> (s.contains(x) || x == v),
{
    if s.push(v).contains(x) {
        let j = choose|j: int| 0 <= j < s.push(v).len() && s.push(v)[j] == x;
        if j < s.len() {
            assert(s[j] == x);
        }
    }
    if s.contains(x) {
        let j = choose|j: int| 0 <= j < s.len() && s[j] == x;
        assert(s.push(v)[j] == x);
    }
    if x == v {
        assert(s.push(v)[s.len() as int] == x);
    }
}

pub proof fn lemma_keep_in(a: Seq<Seq<Seq<char>>>, b: Seq<Seq<Seq<char>>>, x: Seq<Seq<char>>)
    ensures
        keep_in(a, b).contains(x) <==> (a.contains(x) && b.contains(x)),
    decreases a.len(),
{
    if a.len() > 0 {
        lemma_keep_in(a.drop_last(), b, x);
        assert(a =~= a.drop_last().push(a.last()));
        lemma_push_contains(a.drop_last(), a.last(), x);
        if b.contains(a.last()) {
            lemma_push_contains(keep_in(a.drop_last(), b), a.last(), x);
        }
    }
}

/// The audiences common to every one of `auds`; none for an empty list.
pub open spec fn meet_all(auds: Seq<Seq<Seq<Seq<char>>>>) -> Seq<Seq<Seq<char>>>
    decreases auds.len(),
{
    if auds.len() == 0 {
        Seq::empty()
    } else if auds.len() == 1 {
        auds[0]
    } else {
        keep_in(meet_all(auds.drop_last()), auds.last())
    }
}

pub fn keep_keys_in(a: &Vec<ContextKey>, b: &Vec<ContextKey>) -> (r: Vec<ContextKey>)
    ensures
        keys_view(r@) == keep_in(keys_view(a@), keys_view(b@)),
{
    let mut out: Vec<ContextKey> = Vec::new();
    let mut i: usize = 0;
    while i < a.len()
        invariant
            i <= a@.len(),
            keys_view(out@) == keep_in(keys_view(a@).subrange(0, i as int), keys_view(b@)),
        decreases a@.len() - i,
    {
        proof {
            let s = keys_view(a@).subrange(0, i + 1);
            assert(s.drop_last() =~= keys_view(a@).subrange(0, i as int));
            assert(s.last() == a@[i as int]@);
        }
        if contains_key(b, &a[i]) {
            out.push(a[i].clone());
            proof {
                assert(keys_view(out@) =~= keys_view(out@).drop_last().push(a@[i as int]@));
                assert(keys_view(out@).drop_last() =~= keep_in(keys_view(a@).subrange(0, i as int), keys_view(b@)));
            }
        }
        i += 1;
    }
    assert(keys_view(a@).subrange(0, a@.len() as int) =~= keys_view(a@));
    out
}

/// Audiences, each with a level; a merge keeps the higher level.
pub struct AudienceBoard(pub Context<u64>);

impl View for AudienceBoard {
    type V = Seq<(Seq<Seq<char>>, u64)>;

    open spec fn view(&self) -> Seq<(Seq<Seq<char>>, u64)> {
        self.0@
    }
}

/// `b` with `at` at level `val`, or at its existing level when that is higher.
pub open spec fn board_insert(b: Seq<(Seq<Seq<char>>, u64)>, at: Seq<Seq<char>>, val: u64) -> Seq<
    (Seq<Seq<char>>, u64),
> {
    match spec_get(b, at) {
        Ok(existing) => if val > existing {
            spec_insert(b, at, val)
        } else {
            b
        },
        Err(_) => spec_insert(b, at, val),
    }
}

/// The audiences of `b` that `o` also has, each at the higher of its two
/// levels, in the order of `b`.
pub open spec fn board_intersect(b: Seq<(Seq<Seq<char>>, u64)>, o: Seq<(Seq<Seq<char>>, u64)>) -> Seq<
    (Seq<Seq<char>>, u64),
>
    decreases b.len(),
{
    if b.len() == 0 {
        Seq::empty()
    } else {
        let rest = board_intersect(b.drop_last(), o);
        match spec_get(o, b.last().0) {
            Ok(v) => rest.push((b.last().0, if v > b.last().1 {
                v
            } else {
                b.last().1
            })),
            Err(_) => rest,
        }
    }
}

/// `b` after each of `p` is granted in turn.
pub open spec fn board_extend(b: Seq<(Seq<Seq<char>>, u64)>, p: Seq<(Seq<Seq<char>>, u64)>) -> Seq<
    (Seq<Seq<char>>, u64),
>
    decreases p.len(),
{
    if p.len() == 0 {
        b
    } else {
        board_insert(board_extend(b, p.drop_last()), p.last().0, p.last().1)
    }
}

impl AudienceBoard {
    pub fn default() -> (r: AudienceBoard)
        ensures
            r@ == Seq::<(Seq<Seq<char>>, u64)>::empty(),
    {
        AudienceBoard(Context::new())
    }

    pub fn into_inner(self) -> (r: Context<u64>)
        ensures
            r@ == self@,
    {
        self.0
    }

    /// Grants `at` at level `val`, keeping a higher level already granted.
    pub fn insert(&mut self, at: ContextKey, val: u64)
        ensures
            final(self)@ == board_insert(old(self)@, at@, val),
    {
        let keep = match self.0.get(&at) {
            Ok(existing) => val <= *existing,
            Err(_) => false,
        };
        if !keep {
            self.0.insert(at, val);
        }
    }

    /// Keeps the audiences that `other` also has, at the higher level.
    pub fn intersect(&mut self, other: &AudienceBoard)
        ensures
            final(self)@ == board_intersect(old(self)@, other@),
    {
        let mut out: Vec<(ContextKey, u64)> = Vec::new();
        let mut i: usize = 0;
        let ghost b = self@;
        assert(b.subrange(0, 0) =~= Seq::<(Seq<Seq<char>>, u64)>::empty());
        assert(out@.map_values(|e: (ContextKey, u64)| (e.0@, e.1@)) =~= Seq::<(Seq<Seq<char>>, u64)>::empty());
        while i < self.0.entries.len()
            invariant
                b == self@,
                b.len() == self.0.entries@.len(),
                i <= b.len(),
                out@.map_values(|e: (ContextKey, u64)| (e.0@, e.1@)) == board_intersect(b.subrange(0, i as int), other@),
            decreases b.len() - i,
        {
            proof {
                let s = b.subrange(0, i + 1);
                assert(s.drop_last() =~= b.subrange(0, i as int));
            }
            let k = &self.0.entries[i].0;
            let v = self.0.entries[i].1;
            match other.0.get(k) {
                Ok(w) => {
                    let top = if *w > v {
                        *w
                    } else {
                        v
                    };
                    out.push((k.clone(), top));
                    assert(out@.map_values(|e: (ContextKey, u64)| (e.0@, e.1@)) =~= board_intersect(b.subrange(0, i + 1), other@));
                },
                Err(_) => {
                    assert(out@.map_values(|e: (ContextKey, u64)| (e.0@, e.1@)) =~= board_intersect(b.subrange(0, i + 1), other@));
                },
            }
            i += 1;
        }
        proof {
            assert(b.subrange(0, b.len() as int) =~= b);
        }
        self.0 = Context { entries: out };
    }

    /// Grants each audience of `pairs` in turn.
    pub fn extend(&mut self, pairs: Vec<(ContextKey, u64)>)
        ensures
            final(self)@ == board_extend(old(self)@, pairs@.map_values(|e: (ContextKey, u64)| (e.0@, e.1))),
    {
        let ghost all = pairs@.map_values(|e: (ContextKey, u64)| (e.0@, e.1));
        let ghost n = pairs@.len();
        let mut pairs = pairs;
        let total = pairs.len();
        let mut done: usize = 0;
        assert(all.subrange(0, 0) =~= Seq::<(Seq<Seq<char>>, u64)>::empty());
        while pairs.len() > 0
            invariant
                all.len() == n,
                n == total,
                done + pairs@.len() == n,
                forall|j: int| 0 <= j < pairs@.len() ==> (#[trigger] pairs@[j]).0@ == all[done + j].0 && pairs@[j].1 == all[done + j].1,
                self@ == board_extend(old(self)@, all.subrange(0, done as int)),
            decreases pairs@.len(),
        {
            let (k, v) = pairs.remove(0);
            proof {
                let s = all.subrange(0, done + 1);
                assert(s.drop_last() =~= all.subrange(0, done as int));
            }
            self.insert(k, v);
            done += 1;
        }
        proof {
            assert(all.subrange(0, n as int) =~= all);
        }
    }

    /// The board granting each audience of `pairs` in turn.
    pub fn from_iter(pairs: Vec<(ContextKey, u64)>) -> (r: AudienceBoard)
        ensures
            r@ == board_extend(Seq::empty(), pairs@.map_values(|e: (ContextKey, u64)| (e.0@, e.1))),
    {
        let mut out = AudienceBoard::default();
        out.extend(pairs);
        out
    }
}

/// Children of a node, in order.
pub open spec fn children(e: ExprV) -> Seq<ExprTV> {
    match e {
        ExprV::Column(_) => Seq::empty(),
        ExprV::Literal(_) => Seq::empty(),
        ExprV::As { expr, .. } => seq![*expr],
        ExprV::Function { args, .. } => args,
        ExprV::IsNull(x) => seq![*x],
        ExprV::IsNotNull(x) => seq![*x],
        ExprV::InList { expr, list, .. } => seq![*expr] + list,
        ExprV::Between { expr, low, high, .. } => seq![*expr, *low, *high],
        ExprV::UnaryOp { expr, .. } => seq![*expr],
        ExprV::BinaryOp { left, right, .. } => seq![*left, *right],
        ExprV::Case { conditions, results, else_result } => match else_result {
            Some(x) => conditions + results + seq![*x],
            None => conditions + results,
        },
        ExprV::Hash { expr, .. } => seq![*expr],
        ExprV::Replace { expr, pattern, with } => seq![*expr, *pattern, *with],
        ExprV::Noisy { expr, .. } => seq![*expr],
    }
}

/// The error of the first child whose annotation failed.
pub open spec fn first_err(s: Seq<ExprTV>) -> Option<ValidateErrorV>
    decreases s.len(),
{
    if s.len() == 0 {
        None
    } else {
        match first_err(s.drop_last()) {
            Some(e) => Some(e),
            None => match s.last().board {
                Err(e) => Some(e),
                Ok(_) => None,
            },
        }
    }
}

pub proof fn lemma_first_err_none(s: Seq<ExprTV>)
    ensures
        first_err(s) is None <==> forall|i: int| 0 <= i < s.len() ==> (#[trigger] s[i]).board is Ok,
    decreases s.len(),
{
    if s.len() > 0 {
        lemma_first_err_none(s.drop_last());
        assert forall|i: int| 0 <= i < s.len() - 1 implies s.drop_last()[i] == s[i] by {}
    }
}

pub open spec fn meta_of(t: ExprTV) -> ExprMetaV {
    t.board->Ok_0
}

pub open spec fn ty_of(t: ExprTV) -> DataType {
    t.board->Ok_0.ty
}

pub open spec fn all_ty(s: Seq<ExprTV>, t: DataType) -> bool {
    forall|i: int| 0 <= i < s.len() ==> ty_of(#[trigger] s[i]) == t
}

pub open spec fn expected(m: Seq<char>) -> ValidateErrorV {
    ValidateErrorV::Expected(m)
}

/// The type of a call of `name` on arguments with the given annotations.
pub open spec fn spec_function_type(name: FunctionName, args: Seq<ExprTV>) -> Result<DataType, ValidateErrorV> {
    if args.len() == 0 {
            Err(expected("function to have at least one argument"@))
        } else {
            let fst = ty_of(args.last());
            if !all_ty(args, fst) {
                Err(expected("all arguments of functions to have the same type"@))
            } else {
                match name {
                    FunctionName::Count => Ok(DataType::Integer),
                    FunctionName::Sum | FunctionName::Max | FunctionName::Min => if is_numeric(fst) {
                        Ok(fst)
                    } else {
                        Err(ValidateErrorV::InvalidType("numeric type"@, data_type_display(fst)))
                    },
                    FunctionName::StdDev | FunctionName::Avg => if is_numeric(fst) {
                        Ok(DataType::Float)
                    } else {
                        Err(ValidateErrorV::InvalidType("numeric type"@, data_type_display(fst)))
                    },
                    FunctionName::Concat => if fst == DataType::String {
                        Ok(DataType::String)
                    } else {
                        Err(ValidateErrorV::InvalidType("string type"@, data_type_display(fst)))
                    },
                }
            }
        }
}

/// The type of a `CASE` with the given annotated parts.
pub open spec fn spec_case_type(
    conditions: Seq<ExprTV>,
    results: Seq<ExprTV>,
    else_result: Option<Box<ExprTV>>,
) -> Result<DataType, ValidateErrorV> {
    if results.len() == 0 {
            Err(expected("at least one `THEN ...` in an expression of the form `CASE`"@))
        } else {
            let fst = ty_of(results.last());
            if all_ty(results, fst) && all_ty(conditions, DataType::Boolean) && match else_result {
                Some(x) => ty_of(*x) == fst,
                None => true,
            } {
                Ok(fst)
            } else {
                Err(
                    expected(
                        "in an expression of the form `CASE WHEN a THEN b ELSE c`, `a` needs to be a boolean and `b` and `c` need to have to same type"@,
                    ),
                )
            }
        }
}

/// The type of a node whose children are all annotated.
pub open spec fn spec_type_dot(e: ExprV) -> Result<DataType, ValidateErrorV> {
    match e {
        ExprV::Column(k) => Err(ValidateErrorV::Internal("tried to complete a column "@ + key_text(k))),
        ExprV::Literal(l) => Ok(
            match l {
                LiteralValueV::Long(_) => DataType::Integer,
                LiteralValueV::Double(_) => DataType::Float,
                LiteralValueV::Boolean(_) => DataType::Boolean,
                LiteralValueV::StringLiteral(_) => DataType::String,
                LiteralValueV::Null => DataType::Null,
            },
        ),
        ExprV::As { expr, .. } => Ok(ty_of(*expr)),
        ExprV::Function { name, args, .. } => spec_function_type(name, args),
        ExprV::IsNull(_) | ExprV::IsNotNull(_) => Ok(DataType::Boolean),
        ExprV::InList { expr, list, .. } => if all_ty(list, ty_of(*expr)) {
            Ok(ty_of(*expr))
        } else {
            Err(expected("in an expression of the form `a IN (b, [c, ..])`, the type of `a` needs to be the same as the type of each list element `(b, [c, ..])`"@))
        },
        ExprV::Between { expr, low, high, .. } => if is_numeric(ty_of(*expr)) && is_numeric(
            ty_of(*low),
        ) && is_numeric(ty_of(*high)) {
            Ok(DataType::Boolean)
        } else {
            Err(expected("in an expression of the form `a BETWEEN b AND c`, the type of `a` needs to be the same as the type of both `b` and `c`."@))
        },
        ExprV::UnaryOp { op, expr } => match op {
            UnaryOperator::Plus | UnaryOperator::Minus => if is_numeric(ty_of(*expr)) {
                Ok(ty_of(*expr))
            } else {
                Err(expected("the argument of `+` or `-` to be a numeric type"@))
            },
            UnaryOperator::Not => if ty_of(*expr) == DataType::Boolean {
                Ok(DataType::Boolean)
            } else {
                Err(expected("the argument of `NOT` to be a boolean"@))
            },
        },
        ExprV::BinaryOp { left, op, right } => {
            let l = ty_of(*left);
            let r = ty_of(*right);
            match op {
                BinaryOperator::Plus | BinaryOperator::Minus | BinaryOperator::Multiply
                | BinaryOperator::Divide | BinaryOperator::Modulus => if is_numeric(l) && is_numeric(r) {
                    Ok(l)
                } else {
                    Err(arithmetic_error(op))
                },
                BinaryOperator::Gt | BinaryOperator::Lt | BinaryOperator::GtEq
                | BinaryOperator::LtEq | BinaryOperator::Eq | BinaryOperator::NotEq => if l == r {
                    Ok(DataType::Boolean)
                } else {
                    Err(expected("the types of left and right expressions in a binary comparison operator to be the same"@))
                },
                BinaryOperator::Like | BinaryOperator::NotLike => if l == DataType::String && r
                    == DataType::String {
                    Ok(DataType::Boolean)
                } else {
                    Err(expected("in an expression of the form `a LIKE b`, both `a` and `b` need to be strings"@))
                },
                BinaryOperator::And | BinaryOperator::Or => if l == DataType::Boolean && r
                    == DataType::Boolean {
                    Ok(DataType::Boolean)
                } else {
                    Err(expected("in an expression of the form `a AND b` or `a OR b`, both `a` and `b` need to be booleans"@))
                },
            }
        },
        ExprV::Case { conditions, results, else_result } => spec_case_type(conditions, results, else_result),
        ExprV::Hash { .. } => Ok(DataType::Bytes),
        ExprV::Replace { with, .. } => Ok(ty_of(*with)),
        ExprV::Noisy { expr, .. } => Ok(ty_of(*expr)),
    }
}

pub open spec fn any_nullable(s: Seq<ExprTV>) -> bool {
    exists|i: int| 0 <= i < s.len() && meta_of(#[trigger] s[i]).mode == Mode::Nullable
}

pub open spec fn any_tainted(s: Seq<ExprTV>) -> bool {
    exists|i: int| 0 <= i < s.len() && meta_of(#[trigger] s[i]).taint
}

pub open spec fn audiences(s: Seq<ExprTV>) -> Seq<Seq<Seq<Seq<char>>>> {
    s.map_values(|t: ExprTV| meta_of(t).audience)
}

pub open spec fn spec_mode_dot(e: ExprV) -> Mode {
    match e {
        ExprV::Literal(LiteralValueV::Null) => Mode::Nullable,
        ExprV::Literal(_) => Mode::Required,
        _ => if any_nullable(children(e)) {
            Mode::Nullable
        } else {
            Mode::Required
        },
    }
}

/// The statistics that a node passes on: an alias keeps those of its
/// expression, a count moves by one per row, and the other aggregates by as
/// much as their argument.
pub open spec fn spec_stats_dot(e: ExprV) -> (Option<u64>, Option<u64>) {
    match e {
        ExprV::As { expr, .. } => (meta_of(*expr).max_frequency, meta_of(*expr).sensitivity),
        ExprV::Function { name, args, .. } => match name {
            FunctionName::Count => (None, Some(1u64)),
            FunctionName::Concat => (None, None),
            _ => (None, meta_of(args.last()).sensitivity),
        },
        _ => (None, None),
    }
}

/// The annotation of a node, computed from those of its children: the first
/// failed child fails the node, a column cannot be annotated here, and
/// otherwise type, nullability, taint, audience and statistics are combined.
pub open spec fn spec_expr_dot(e: ExprV) -> Result<ExprMetaV, ValidateErrorV> {
    if e is Column {
        Err(ValidateErrorV::Internal("tried to complete a column "@ + key_text(e->Column_0)))
    } else {
        match first_err(children(e)) {
            Some(err) => Err(err),
            None => match spec_type_dot(e) {
                Err(err) => Err(err),
                Ok(ty) => Ok(
                    ExprMetaV {
                        ty,
                        mode: spec_mode_dot(e),
                        taint: any_tainted(children(e)),
                        audience: meet_all(audiences(children(e))),
                        max_frequency: spec_stats_dot(e).0,
                        sensitivity: spec_stats_dot(e).1,
                    },
                ),
            },
        }
    }
}


/// The annotation of an expression that has one.
pub fn meta(t: &ExprT) -> (r: &ExprMeta)
    requires
        t.board is Ok,
    ensures
        r@ == meta_of(t@),
{
    t.board.as_ref().unwrap()
}

fn expected_error(m: &str) -> (r: ValidateError)
    ensures
        r@ == expected(m@),
{
    ValidateError::Expected(String::from_str(m))
}

pub fn push_all<'a>(out: &mut Vec<&'a ExprT>, v: &'a Vec<ExprT>)
    ensures
        final(out)@.len() == old(out)@.len() + v@.len(),
        forall|i: int| 0 <= i < old(out)@.len() ==> final(out)@[i] == old(out)@[i],
        forall|i: int| 0 <= i < v@.len() ==> final(out)@[old(out)@.len() + i]@ == expr_views(v@)[i],
        expr_views(v@).len() == v@.len(),
{
    proof {
        lemma_expr_views(v@);
    }
    let mut i: usize = 0;
    while i < v.len()
        invariant
            i <= v@.len(),
            out@.len() == old(out)@.len() + i,
            forall|j: int| 0 <= j < old(out)@.len() ==> out@[j] == old(out)@[j],
            forall|j: int| 0 <= j < i ==> out@[old(out)@.len() + j]@ == expr_views(v@)[j],
            expr_views(v@).len() == v@.len(),
            forall|j: int| 0 <= j < v@.len() ==> #[trigger] expr_views(v@)[j] == v@[j]@,
        decreases v@.len() - i,
    {
        out.push(&v[i]);
        i += 1;
    }
}

/// References to the children of a node, in order.
pub fn child_list(e: &Expr) -> (r: Vec<&ExprT>)
    ensures
        r@.len() == children(e.view()).len(),
        forall|i: int| 0 <= i < r@.len() ==> (#[trigger] r@[i])@ == children(e.view())[i],
{
    let mut out: Vec<&ExprT> = Vec::new();
    match e {
        Expr::Column(_) | Expr::Literal(_) => {},
        Expr::As { expr, .. } | Expr::IsNull(expr) | Expr::IsNotNull(expr) | Expr::UnaryOp {
            expr,
            ..
        } | Expr::Hash { expr, .. } | Expr::Noisy { expr, .. } => {
            out.push(&**expr);
        },
        Expr::Function { args, .. } => {
            push_all(&mut out, args);
        },
        Expr::InList { expr, list, .. } => {
            out.push(&**expr);
            push_all(&mut out, list);
        },
        Expr::Between { expr, low, high, .. } => {
            out.push(&**expr);
            out.push(&**low);
            out.push(&**high);
        },
        Expr::BinaryOp { left, right, .. } => {
            out.push(&**left);
            out.push(&**right);
        },
        Expr::Case { conditions, results, else_result } => {
            push_all(&mut out, conditions);
            push_all(&mut out, results);
            match else_result {
                Some(x) => {
                    out.push(&**x);
                },
                None => {},
            }
        },
        Expr::Replace { expr, pattern, with } => {
            out.push(&**expr);
            out.push(&**pattern);
            out.push(&**with);
        },
    }
    out
}

fn all_of_type(v: &Vec<ExprT>, t: DataType) -> (r: bool)
    requires
        forall|i: int| 0 <= i < v@.len() ==> (#[trigger] v@[i]).board is Ok,
    ensures
        r == all_ty(expr_views(v@), t),
{
    proof {
        lemma_expr_views(v@);
    }
    let mut i: usize = 0;
    while i < v.len()
        invariant
            i <= v@.len(),
            forall|j: int| 0 <= j < v@.len() ==> (#[trigger] v@[j]).board is Ok,
            expr_views(v@).len() == v@.len(),
            forall|j: int| 0 <= j < v@.len() ==> #[trigger] expr_views(v@)[j] == v@[j]@,
            forall|j: int| 0 <= j < i ==> ty_of(#[trigger] expr_views(v@)[j]) == t,
        decreases v@.len() - i,
    {
        if meta(&v[i]).ty != t {
            assert(ty_of(expr_views(v@)[i as int]) != t);
            return false;
        }
        i += 1;
    }
    true
}

fn function_type(name: FunctionName, args: &Vec<ExprT>) -> (r: Result<DataType, ValidateError>)
    requires
        forall|i: int| 0 <= i < args@.len() ==> (#[trigger] args@[i]).board is Ok,
    ensures
        match r {
            Ok(t) => spec_function_type(name, expr_views(args@)) == Ok::<DataType, ValidateErrorV>(t),
            Err(x) => spec_function_type(name, expr_views(args@)) == Err::<DataType, ValidateErrorV>(x@),
        },
{
    proof {
        lemma_expr_views(args@);
    }
    let n = args.len();
    if n == 0 {
        return Err(expected_error("function to have at least one argument"));
    }
    let fst = meta(&args[n - 1]).ty;
    assert(expr_views(args@).last() == args@[n - 1]@);
    if !all_of_type(args, fst) {
        return Err(expected_error("all arguments of functions to have the same type"));
    }
    match name {
        FunctionName::Count => Ok(DataType::Integer),
        FunctionName::Sum | FunctionName::Max | FunctionName::Min => if fst.is_numeric() {
            Ok(fst)
        } else {
            Err(ValidateError::InvalidType(String::from_str("numeric type"), fst.to_string()))
        },
        FunctionName::StdDev | FunctionName::Avg => if fst.is_numeric() {
            Ok(DataType::Float)
        } else {
            Err(ValidateError::InvalidType(String::from_str("numeric type"), fst.to_string()))
        },
        FunctionName::Concat => if fst == DataType::String {
            Ok(DataType::String)
        } else {
            Err(ValidateError::InvalidType(String::from_str("string type"), fst.to_string()))
        },
    }
}

fn case_type(conditions: &Vec<ExprT>, results: &Vec<ExprT>, else_result: &Option<Box<ExprT>>) -> (r: Result<DataType, ValidateError>)
    requires
        forall|i: int| 0 <= i < conditions@.len() ==> (#[trigger] conditions@[i]).board is Ok,
        forall|i: int| 0 <= i < results@.len() ==> (#[trigger] results@[i]).board is Ok,
        match else_result {
            Some(x) => x.board is Ok,
            None => true,
        },
    ensures
        match r {
            Ok(t) => spec_case_type(expr_views(conditions@), expr_views(results@), match else_result {
                    Some(x) => Some(Box::new(x@)),
                    None => None,
            }) == Ok::<DataType, ValidateErrorV>(t),
            Err(x) => spec_case_type(expr_views(conditions@), expr_views(results@), match else_result {
                    Some(x) => Some(Box::new(x@)),
                    None => None,
            }) == Err::<DataType, ValidateErrorV>(x@),
        },
{
    proof {
        lemma_expr_views(conditions@);
        lemma_expr_views(results@);
    }
    let n = results.len();
    if n == 0 {
        return Err(expected_error("at least one `THEN ...` in an expression of the form `CASE`"));
    }
    let fst = meta(&results[n - 1]).ty;
    assert(expr_views(results@).last() == results@[n - 1]@);
    let else_ok = match else_result {
        Some(x) => meta(x).ty == fst,
        None => true,
    };
    if all_of_type(results, fst) && all_of_type(conditions, DataType::Boolean) && else_ok {
        Ok(fst)
    } else {
        Err(
            expected_error(
                "in an expression of the form `CASE WHEN a THEN b ELSE c`, `a` needs to be a boolean and `b` and `c` need to have to same type",
            ),
        )
    }
}

/// The type of a node whose children are annotated.
#[verifier::rlimit(60)]
#[verifier::spinoff_prover]
pub fn type_dot(e: &Expr) -> (r: Result<DataType, ValidateError>)
    requires
        forall|i: int|
        0 <= i < children(e.view()).len() ==> (#[trigger] children(e.view())[i]).board is Ok,
    ensures
        match r {
            Ok(t) => spec_type_dot(e.view()) == Ok::<DataType, ValidateErrorV>(t),
            Err(x) => spec_type_dot(e.view()) == Err::<DataType, ValidateErrorV>(x@),
        },
{
    let ghost ev = e.view();
    match e {
        Expr::Column(k) => Err(
            ValidateError::Internal(
                String::from_str("tried to complete a column ").concat(k.to_string().as_str()),
            ),
        ),
        Expr::Literal(l) => Ok(
            match l {
                LiteralValue::Long(_) => DataType::Integer,
                LiteralValue::Double(_) => DataType::Float,
                LiteralValue::Boolean(_) => DataType::Boolean,
                LiteralValue::StringLiteral(_) => DataType::String,
                LiteralValue::Null => DataType::Null,
            },
        ),
        Expr::As { expr, .. } => {
            assert(children(ev)[0] == expr@);
            Ok(meta(expr).ty)
        },
        Expr::Function { name, args, .. } => {
            proof {
                lemma_expr_views(args@);
                assert forall|i: int| 0 <= i < args@.len() implies (#[trigger] args@[i]).board is Ok by {
                    assert(children(ev)[i] == args@[i]@);
                }
            }
            function_type(*name, args)
        },
        Expr::IsNull(_) | Expr::IsNotNull(_) => Ok(DataType::Boolean),
        Expr::InList { expr, list, .. } => {
            proof {
                lemma_expr_views(list@);
                assert(children(ev)[0] == expr@);
                assert forall|i: int| 0 <= i < list@.len() implies (#[trigger] list@[i]).board is Ok by {
                    assert(children(ev)[i + 1] == list@[i]@);
                }
            }
            let t = meta(expr).ty;
            if all_of_type(list, t) {
                Ok(t)
            } else {
                Err(expected_error("in an expression of the form `a IN (b, [c, ..])`, the type of `a` needs to be the same as the type of each list element `(b, [c, ..])`"))
            }
        },
        Expr::Between { expr, low, high, .. } => {
            assert(children(ev)[0] == expr@ && children(ev)[1] == low@ && children(ev)[2] == high@);
            if meta(expr).ty.is_numeric() && meta(low).ty.is_numeric() && meta(high).ty.is_numeric() {
                Ok(DataType::Boolean)
            } else {
                Err(expected_error("in an expression of the form `a BETWEEN b AND c`, the type of `a` needs to be the same as the type of both `b` and `c`."))
            }
        },
        Expr::UnaryOp { op, expr } => {
            assert(children(ev)[0] == expr@);
            let t = meta(expr).ty;
            match op {
                UnaryOperator::Plus | UnaryOperator::Minus => if t.is_numeric() {
                    Ok(t)
                } else {
                    Err(expected_error("the argument of `+` or `-` to be a numeric type"))
                },
                UnaryOperator::Not => if t == DataType::Boolean {
                    Ok(DataType::Boolean)
                } else {
                    Err(expected_error("the argument of `NOT` to be a boolean"))
                },
            }
        },
        Expr::BinaryOp { left, op, right } => {
            assert(children(ev)[0] == left@ && children(ev)[1] == right@);
            let l = meta(left).ty;
            let r = meta(right).ty;
            match op {
                BinaryOperator::Plus | BinaryOperator::Minus | BinaryOperator::Multiply
                | BinaryOperator::Divide | BinaryOperator::Modulus => if l.is_numeric()
                && r.is_numeric() {
                    Ok(l)
                } else {
                    Err(
                        ValidateError::Expected(
                            String::from_str(
                                "the type of both arguments of a binary arithmetic operator expression with operator `",
                            ).concat(operator_text(*op)).concat("` to both be numeric"),
                        ),
                    )
                },
                BinaryOperator::Gt | BinaryOperator::Lt | BinaryOperator::GtEq
                | BinaryOperator::LtEq | BinaryOperator::Eq | BinaryOperator::NotEq => if l == r {
                    Ok(DataType::Boolean)
                } else {
                    Err(expected_error("the types of left and right expressions in a binary comparison operator to be the same"))
                },
                BinaryOperator::Like | BinaryOperator::NotLike => if l == DataType::String && r
                == DataType::String {
                    Ok(DataType::Boolean)
                } else {
                    Err(expected_error("in an expression of the form `a LIKE b`, both `a` and `b` need to be strings"))
                },
                BinaryOperator::And | BinaryOperator::Or => if l == DataType::Boolean && r
                == DataType::Boolean {
                    Ok(DataType::Boolean)
                } else {
                    Err(expected_error("in an expression of the form `a AND b` or `a OR b`, both `a` and `b` need to be booleans"))
                },
            }
        },
        Expr::Case { conditions, results, else_result } => {
            proof {
                lemma_expr_views(conditions@);
                lemma_expr_views(results@);
                let nc = conditions@.len() as int;
                let nr = results@.len() as int;
                assert forall|i: int| 0 <= i < conditions@.len() implies (#[trigger] conditions@[i]).board is Ok by {
                    assert(children(ev)[i] == conditions@[i]@);
                }
                assert forall|i: int| 0 <= i < results@.len() implies (#[trigger] results@[i]).board is Ok by {
                    assert(children(ev)[nc + i] == results@[i]@);
                }
                if else_result is Some {
                    assert(children(ev)[nc + nr] == else_result->Some_0@);
                }
            }
            case_type(conditions, results, else_result)
        },
        Expr::Hash { .. } => Ok(DataType::Bytes),
        Expr::Replace { with, .. } => {
            assert(children(ev)[2] == with@);
            Ok(meta(with).ty)
        },
        Expr::Noisy { expr, .. } => {
            assert(children(ev)[0] == expr@);
            Ok(meta(expr).ty)
        },
    }
}

/// Computes the annotation of a node from those of its children.
pub fn expr_dot(e: &Expr) -> (r: Result<ExprMeta, ValidateError>)
    ensures
        board_view(r) == spec_expr_dot(e.view()),
{
    let ghost ev = e.view();
    if let Expr::Column(k) = e {
        assert((ev is Column) && ev->Column_0 == k@);
        return Err(
            ValidateError::Internal(
                String::from_str("tried to complete a column ").concat(k.to_string().as_str()),
            ),
        );
    }
    assert(!(ev is Column));
    let kids = child_list(e);
    let ghost ch = children(ev);
    let mut i: usize = 0;
    while i < kids.len()
        invariant
            ev == e.view(),
            !(ev is Column),
            ch == children(ev),
            kids@.len() == ch.len(),
            forall|j: int| 0 <= j < kids@.len() ==> (#[trigger] kids@[j])@ == ch[j],
            i <= kids@.len(),
            first_err(ch.subrange(0, i as int)) is None,
        decreases kids@.len() - i,
    {
        proof {
            let s = ch.subrange(0, i + 1);
            assert(s.drop_last() =~= ch.subrange(0, i as int));
        }
        match &kids[i].board {
            Err(x) => {
                proof {
                    lemma_first_err_none(ch.subrange(0, i as int));
                    lemma_first_err_none(ch);
                    let s = ch.subrange(0, i + 1);
                    assert(first_err(s) == Some(x@));
                    // the first failure of the whole list lies at i
                    first_err_prefix(ch, i as int + 1);
                    assert(first_err(ch) == Some(x@));
                    assert(spec_expr_dot(ev) == Err::<ExprMetaV, ValidateErrorV>(x@));
                }
                return Err(x.clone());
            },
            Ok(_) => {},
        }
        i += 1;
    }
    proof {
        assert(ch.subrange(0, ch.len() as int) =~= ch);
        lemma_first_err_none(ch);
    }
    let ty = match type_dot(e) {
        Err(x) => {
            return Err(x);
        },
        Ok(t) => t,
    };
    let mode = match e {
        Expr::Literal(LiteralValue::Null) => Mode::Nullable,
        Expr::Literal(_) => Mode::Required,
        _ => {
            let mut nullable = false;
            let mut j: usize = 0;
            while j < kids.len()
                invariant
                    kids@.len() == ch.len(),
                    forall|q: int| 0 <= q < kids@.len() ==> (#[trigger] kids@[q])@ == ch[q],
                    forall|q: int| 0 <= q < ch.len() ==> (#[trigger] ch[q]).board is Ok,
                    j <= kids@.len(),
                    nullable == exists|q: int| 0 <= q < j && meta_of(#[trigger] ch[q]).mode == Mode::Nullable,
                decreases kids@.len() - j,
            {
                if meta(kids[j]).mode == Mode::Nullable {
                    nullable = true;
                }
                j += 1;
            }
            if nullable {
                Mode::Nullable
            } else {
                Mode::Required
            }
        },
    };
    let mut taint = false;
    let mut j: usize = 0;
    while j < kids.len()
        invariant
            kids@.len() == ch.len(),
            forall|q: int| 0 <= q < kids@.len() ==> (#[trigger] kids@[q])@ == ch[q],
            forall|q: int| 0 <= q < ch.len() ==> (#[trigger] ch[q]).board is Ok,
            j <= kids@.len(),
            taint == exists|q: int| 0 <= q < j && meta_of(#[trigger] ch[q]).taint,
        decreases kids@.len() - j,
    {
        if meta(kids[j]).taint.0 {
            taint = true;
        }
        j += 1;
    }
    let ghost auds = audiences(ch);
    let mut audience: Vec<ContextKey> = Vec::new();
    if kids.len() > 0 {
        audience = clone_keys(&meta(kids[0]).audience);
        let mut j: usize = 1;
        proof {
            assert(auds.subrange(0, 1) =~= seq![auds[0]]);
        }
        while j < kids.len()
            invariant
                kids@.len() == ch.len(),
                auds == audiences(ch),
                forall|q: int| 0 <= q < kids@.len() ==> (#[trigger] kids@[q])@ == ch[q],
                forall|q: int| 0 <= q < ch.len() ==> (#[trigger] ch[q]).board is Ok,
                1 <= j <= kids@.len(),
                keys_view(audience@) == meet_all(auds.subrange(0, j as int)),
            decreases kids@.len() - j,
        {
            proof {
                let s = auds.subrange(0, j + 1);
                assert(s.drop_last() =~= auds.subrange(0, j as int));
                assert(s.last() == meta_of(ch[j as int]).audience);
            }
            audience = keep_keys_in(&audience, &meta(kids[j]).audience);
            j += 1;
        }
        proof {
            assert(auds.subrange(0, kids@.len() as int) =~= auds);
        }
    } else {
        assert(keys_view(audience@) =~= meet_all(auds));
    }
    let stats: (Option<u64>, Option<u64>) = match e {
        Expr::As { expr, .. } => {
            assert(ch[0] == expr@);
            (meta(expr).max_frequency, meta(expr).sensitivity)
        },
        Expr::Function { name, args, .. } => match name {
            FunctionName::Count => (None, Some(1u64)),
            FunctionName::Concat => (None, None),
            _ => {
                proof {
                    lemma_expr_views(args@);
                    assert(ch == expr_views(args@));
                }
                let n = args.len();
                assert(n > 0);
                assert(ch[n - 1] == args@[n - 1]@);
                (None, meta(&args[n - 1]).sensitivity)
            },
        },
        _ => (None, None),
    };
    Ok(
        ExprMeta {
            ty,
            mode,
            taint: Taint(taint),
            audience,
            max_frequency: stats.0,
            sensitivity: stats.1,
        },
    )
}

/// The error of the first of `kids` whose annotation failed.
pub fn first_error(kids: &Vec<&ExprT>, Ghost(ch): Ghost<Seq<ExprTV>>) -> (r: Option<ValidateError>)
    requires
        kids@.len() == ch.len(),
        forall|j: int| 0 <= j < kids@.len() ==> (#[trigger] kids@[j])@ == ch[j],
    ensures
        match r {
            Some(e) => first_err(ch) == Some(e@),
            None => first_err(ch) is None,
        },
{
    let mut i: usize = 0;
    assert(ch.subrange(0, 0) =~= Seq::<ExprTV>::empty());
    while i < kids.len()
        invariant
            kids@.len() == ch.len(),
            forall|j: int| 0 <= j < kids@.len() ==> (#[trigger] kids@[j])@ == ch[j],
            i <= kids@.len(),
            first_err(ch.subrange(0, i as int)) is None,
        decreases kids@.len() - i,
    {
        proof {
            let s = ch.subrange(0, i + 1);
            assert(s.drop_last() =~= ch.subrange(0, i as int));
        }
        match &kids[i].board {
            Err(x) => {
                proof {
                    first_err_prefix(ch, i as int + 1);
                }
                return Some(x.clone());
            },
            Ok(_) => {},
        }
        i += 1;
    }
    proof {
        assert(ch.subrange(0, ch.len() as int) =~= ch);
    }
    None
}

/// The audiences common to all of `v`.
pub fn meet_of(v: &Vec<ExprT>) -> (r: Vec<ContextKey>)
    requires
        forall|i: int| 0 <= i < v@.len() ==> (#[trigger] v@[i]).board is Ok,
    ensures
        keys_view(r@) == meet_all(audiences(expr_views(v@))),
{
    proof {
        lemma_expr_views(v@);
    }
    let ghost auds = audiences(expr_views(v@));
    if v.len() == 0 {
        let r: Vec<ContextKey> = Vec::new();
        assert(keys_view(r@) =~= meet_all(auds));
        return r;
    }
    let mut audience = clone_keys(&meta(&v[0]).audience);
    let mut j: usize = 1;
    proof {
        assert(auds.subrange(0, 1) =~= seq![auds[0]]);
    }
    while j < v.len()
        invariant
            auds == audiences(expr_views(v@)),
            expr_views(v@).len() == v@.len(),
            forall|q: int| 0 <= q < v@.len() ==> #[trigger] expr_views(v@)[q] == v@[q]@,
            forall|q: int| 0 <= q < v@.len() ==> (#[trigger] v@[q]).board is Ok,
            1 <= j <= v@.len(),
            keys_view(audience@) == meet_all(auds.subrange(0, j as int)),
        decreases v@.len() - j,
    {
        proof {
            let s = auds.subrange(0, j + 1);
            assert(s.drop_last() =~= auds.subrange(0, j as int));
            assert(s.last() == meta_of(v@[j as int]@).audience);
        }
        audience = keep_keys_in(&audience, &meta(&v[j]).audience);
        j += 1;
    }
    proof {
        assert(auds.subrange(0, v@.len() as int) =~= auds);
    }
    audience
}

proof fn first_err_prefix(s: Seq<ExprTV>, n: int)
    requires
        0 <= n <= s.len(),
        first_err(s.subrange(0, n)) is Some,
    ensures
        first_err(s) == first_err(s.subrange(0, n)),
    decreases s.len(),
{
    if n < s.len() {
        assert(s.drop_last().subrange(0, n) =~= s.subrange(0, n));
        first_err_prefix(s.drop_last(), n);
    } else {
        assert(s.subrange(0, n) =~= s);
    }
}

} // verus!
