use vstd::prelude::*;

use crate::expr::{
    expr_views, lemma_expr_views, BinaryOperator, Distribution, Expr, ExprT, ExprTV, ExprV,
    FunctionName, LiteralValue, LiteralValueV, UnaryOperator,
};
use crate::key::{decimal, decimal_text, key_text};

verus! {

/// What `base64::encode` gives for the UTF-8 bytes of a text.
pub uninterp spec fn base64_of(s: Seq<char>) -> Seq<char>;

/// Relies on `base64::encode` (standard alphabet, padded) to encode the UTF-8
/// bytes of `s`; the result depends on `s` alone.
#[verifier::external_body]
fn encode_salt(s: &str) -> (r: String)
    ensures
        r@ == base64_of(s@),
{
    base64::encode(s)
}

pub open spec fn int_text(n: i64) -> Seq<char> {
    if n < 0 {
        seq!['-'] + decimal((-(n as int)) as nat)
    } else {
        decimal(n as nat)
    }
}

pub fn int_sql(n: i64) -> (r: String)
    ensures
        r@ == int_text(n),
{
    if n < 0 {
        let m: u64 = (0i128 - n as i128) as u64;
        proof {
            reveal_strlit("-");
        }
        let mut s = String::from_str("-");
        s.append(decimal_text(m).as_str());
        assert(s@ =~= int_text(n));
        s
    } else {
        decimal_text(n as u64)
    }
}

pub open spec fn function_text(f: FunctionName) -> Seq<char> {
    match f {
        FunctionName::Count => "COUNT"@,
        FunctionName::Sum => "SUM"@,
        FunctionName::Avg => "AVG"@,
        FunctionName::StdDev => "STDDEV"@,
        FunctionName::Max => "MAX"@,
        FunctionName::Min => "MIN"@,
        FunctionName::Concat => "CONCAT"@,
    }
}

fn function_sql(f: FunctionName) -> (r: &'static str)
    ensures
        r@ == function_text(f),
{
    match f {
        FunctionName::Count => "COUNT",
        FunctionName::Sum => "SUM",
        FunctionName::Avg => "AVG",
        FunctionName::StdDev => "STDDEV",
        FunctionName::Max => "MAX",
        FunctionName::Min => "MIN",
        FunctionName::Concat => "CONCAT",
    }
}

pub open spec fn binary_text(op: BinaryOperator) -> Seq<char> {
    match op {
        BinaryOperator::Plus => "+"@,
        BinaryOperator::Minus => "-"@,
        BinaryOperator::Multiply => "*"@,
        BinaryOperator::Divide => "/"@,
        BinaryOperator::Modulus => "%"@,
        BinaryOperator::Gt => ">"@,
        BinaryOperator::Lt => "<"@,
        BinaryOperator::GtEq => ">="@,
        BinaryOperator::LtEq => "<="@,
        BinaryOperator::Eq => "="@,
        BinaryOperator::NotEq => "<>"@,
        BinaryOperator::Like => "LIKE"@,
        BinaryOperator::NotLike => "NOT LIKE"@,
        BinaryOperator::And => "AND"@,
        BinaryOperator::Or => "OR"@,
    }
}

fn binary_sql(op: BinaryOperator) -> (r: &'static str)
    ensures
        r@ == binary_text(op),
{
    match op {
        BinaryOperator::Plus => "+",
        BinaryOperator::Minus => "-",
        BinaryOperator::Multiply => "*",
        BinaryOperator::Divide => "/",
        BinaryOperator::Modulus => "%",
        BinaryOperator::Gt => ">",
        BinaryOperator::Lt => "<",
        BinaryOperator::GtEq => ">=",
        BinaryOperator::LtEq => "<=",
        BinaryOperator::Eq => "=",
        BinaryOperator::NotEq => "<>",
        BinaryOperator::Like => "LIKE",
        BinaryOperator::NotLike => "NOT LIKE",
        BinaryOperator::And => "AND",
        BinaryOperator::Or => "OR",
    }
}

pub open spec fn unary_text(op: UnaryOperator) -> Seq<char> {
    match op {
        UnaryOperator::Plus => "+"@,
        UnaryOperator::Minus => "-"@,
        UnaryOperator::Not => "NOT "@,
    }
}

pub open spec fn literal_text(l: LiteralValueV) -> Seq<char> {
    match l {
        LiteralValueV::Long(n) => int_text(n),
        LiteralValueV::Double(t) => t,
        LiteralValueV::Boolean(b) => if b {
            "TRUE"@
        } else {
            "FALSE"@
        },
        LiteralValueV::StringLiteral(s) => quoted(s),
        LiteralValueV::Null => "NULL"@,
    }
}

/// `s` with each single quote doubled, as SQL writes it inside quotes.
pub open spec fn escape_quotes(s: Seq<char>) -> Seq<char>
    decreases s.len(),
{
    if s.len() == 0 {
        Seq::empty()
    } else if s.last() == '\'' {
        escape_quotes(s.drop_last()) + seq!['\'', '\'']
    } else {
        escape_quotes(s.drop_last()).push(s.last())
    }
}

/// `s` as a single-quoted SQL string.
pub open spec fn quoted(s: Seq<char>) -> Seq<char> {
    seq!['\''] + escape_quotes(s) + seq!['\'']
}

/// `s` as a single-quoted SQL string, its quotes doubled.
pub fn quote_sql(s: &str) -> (r: String)
    ensures
        r@ == quoted(s@),
{
    proof {
        reveal_strlit("'");
        reveal_strlit("''");
        assert("''"@ =~= seq!['\'', '\'']);
        assert("'"@ =~= seq!['\'']);
    }
    let n = s.unicode_len();
    let mut out = String::from_str("'");
    let mut i: usize = 0;
    while i < n
        invariant
            n == s@.len(),
            i <= n,
            out@ == seq!['\''] + escape_quotes(s@.subrange(0, i as int)),
        decreases n - i,
    {
        let c = s.get_char(i);
        proof {
            let t = s@.subrange(0, i + 1);
            assert(t.drop_last() =~= s@.subrange(0, i as int));
            assert(t.last() == c);
        }
        if c == '\'' {
            out.append("''");
        } else {
            out.append(s.substring_char(i, i + 1));
        }
        proof {
            let t = s@.subrange(0, i + 1);
            assert(s@.subrange(i as int, i + 1) =~= seq![c]);
            reveal_strlit("''");
            assert("''"@ =~= seq!['\'', '\'']);
            assert(out@ =~= seq!['\''] + escape_quotes(t));
        }
        i += 1;
    }
    out.append("'");
    proof {
        reveal_strlit("'");
        assert("'"@ =~= seq!['\'']);
        assert(s@.subrange(0, n as int) =~= s@);
        assert(out@ =~= quoted(s@));
    }
    out
}

/// The texts joined with `", "` between them.
pub open spec fn comma_list(s: Seq<Seq<char>>) -> Seq<char>
    decreases s.len(),
{
    if s.len() == 0 {
        Seq::empty()
    } else if s.len() == 1 {
        s[0]
    } else {
        comma_list(s.drop_last()) + ", "@ + s.last()
    }
}

/// ` WHEN c THEN r` for each pair of condition and result, as far as both go.
pub open spec fn when_list(c: Seq<Seq<char>>, r: Seq<Seq<char>>, n: nat) -> Seq<char>
    decreases n,
{
    if n == 0 || n > c.len() || n > r.len() {
        Seq::empty()
    } else {
        when_list(c, r, (n - 1) as nat) + " WHEN "@ + c[n - 1] + " THEN "@ + r[n - 1]
    }
}

pub open spec fn min_nat(a: nat, b: nat) -> nat {
    if a < b {
        a
    } else {
        b
    }
}

/// The SQL text of an expression; with `bq`, a hash is written in BigQuery's
/// built-ins with its salt in base64.
pub open spec fn sql_expr(e: ExprTV, bq: bool) -> Seq<char>
    decreases e,
{
    match e.root {
        ExprV::Column(k) => key_text(k),
        ExprV::Literal(l) => literal_text(l),
        ExprV::As { expr, alias } => sql_expr(*expr, bq) + " AS "@ + alias,
        ExprV::Function { name, args, distinct } => function_text(name) + "("@ + (if distinct {
            "DISTINCT "@
        } else {
            Seq::empty()
        }) + comma_list(sql_each(args, bq)) + ")"@,
        ExprV::IsNull(x) => sql_expr(*x, bq) + " IS NULL"@,
        ExprV::IsNotNull(x) => sql_expr(*x, bq) + " IS NOT NULL"@,
        ExprV::InList { expr, list, negated } => sql_expr(*expr, bq) + (if negated {
            " NOT IN ("@
        } else {
            " IN ("@
        }) + comma_list(sql_each(list, bq)) + ")"@,
        ExprV::Between { expr, low, high, negated } => sql_expr(*expr, bq) + (if negated {
            " NOT BETWEEN "@
        } else {
            " BETWEEN "@
        }) + sql_expr(*low, bq) + " AND "@ + sql_expr(*high, bq),
        ExprV::UnaryOp { op, expr } => unary_text(op) + sql_expr(*expr, bq),
        ExprV::BinaryOp { left, op, right } => "("@ + sql_expr(*left, bq) + " "@ + binary_text(op)
            + " "@ + sql_expr(*right, bq) + ")"@,
        ExprV::Case { conditions, results, else_result } => "CASE"@ + when_list(
            sql_each(conditions, bq),
            sql_each(results, bq),
            min_nat(conditions.len(), results.len()),
        ) + match else_result {
            Some(x) => " ELSE "@ + sql_expr(*x, bq),
            None => Seq::empty(),
        } + " END"@,
        ExprV::Hash { expr, salt, .. } => if bq {
            bigquery_hash_text(base64_of(salt), sql_expr(*expr, bq))
        } else {
            "SHA256(CONCAT("@ + quoted(salt) + ", "@ + sql_expr(*expr, bq) + "))"@
        },
        ExprV::Replace { expr, pattern, with } => "REPLACE("@ + sql_expr(*expr, bq) + ", "@ + sql_expr(
            *pattern,
            bq,
        ) + ", "@ + sql_expr(*with, bq) + ")"@,
        ExprV::Noisy { expr, distribution } => match distribution {
            Distribution::Laplace { mean, variance_num, variance_den } => "("@ + sql_expr(*expr, bq)
                + " + LAPLACE_NOISE("@ + int_text(mean) + ", "@ + decimal(variance_num as nat) + " / "@
                + decimal(variance_den as nat) + "))"@,
        },
    }
}

pub open spec fn sql_each(s: Seq<ExprTV>, bq: bool) -> Seq<Seq<char>>
    decreases s,
{
    if s.len() == 0 {
        Seq::empty()
    } else {
        sql_each(s.drop_last(), bq).push(sql_expr(s.last(), bq))
    }
}

pub proof fn lemma_sql_each_len(s: Seq<ExprTV>, bq: bool)
    ensures
        sql_each(s, bq).len() == s.len(),
    decreases s.len(),
{
    if s.len() > 0 {
        lemma_sql_each_len(s.drop_last(), bq);
    }
}

/// BigQuery's writing of a salted SHA-256: `TO_BASE64(SHA256(CONCAT('<salt>', <expr>)))`.
pub open spec fn bigquery_hash_text(encoded_salt: Seq<char>, inner: Seq<char>) -> Seq<char> {
    "TO_BASE64(SHA256(CONCAT('"@ + encoded_salt + "', "@ + inner + ")))"@
}

/// Writes a salted SHA-256 in BigQuery's built-ins, from the salt already in
/// base64 and the text of the hashed expression.
pub fn bigquery_hash_sql(encoded_salt: &str, inner: &str) -> (r: String)
    ensures
        r@ == bigquery_hash_text(encoded_salt@, inner@),
{
    String::from_str("TO_BASE64(SHA256(CONCAT('").concat(encoded_salt).concat("', ").concat(
        inner,
    ).concat(")))")
}

/// The texts of `v` joined by commas.
fn sql_list(v: &Vec<ExprT>, bq: bool) -> (r: String)
    ensures
        r@ == comma_list(sql_each(expr_views(v@), bq)),
    decreases v, 1int,
{
    proof {
        lemma_expr_views(v@);
    }
    let ghost vs = expr_views(v@);
    let mut out = String::new();
    let mut i: usize = 0;
    assert(vs.subrange(0, 0) =~= Seq::<ExprTV>::empty());
    while i < v.len()
        invariant
            vs == expr_views(v@),
            vs.len() == v@.len(),
            forall|q: int| 0 <= q < v@.len() ==> #[trigger] vs[q] == v@[q]@,
            i <= v@.len(),
            out@ == comma_list(sql_each(vs.subrange(0, i as int), bq)),
        decreases v@.len() - i,
    {
        proof {
            assert(decreases_to!(v => v[i as int]));
            let s = vs.subrange(0, i + 1);
            assert(s.drop_last() =~= vs.subrange(0, i as int));
        }
        let t = expr_sql(&v[i], bq);
        let ghost before = out@;
        if i > 0 {
            out.append(", ");
        }
        out.append(t.as_str());
        proof {
            let s = vs.subrange(0, i + 1);
            lemma_sql_each_len(s, bq);
            lemma_sql_each_len(vs.subrange(0, i as int), bq);
            assert(sql_each(s, bq) == sql_each(vs.subrange(0, i as int), bq).push(t@));
            let e = sql_each(s, bq);
            assert(e.drop_last() =~= sql_each(vs.subrange(0, i as int), bq));
            if i == 0 {
                assert(out@ =~= t@);
            } else {
                assert(out@ =~= before + ", "@ + t@);
            }
            assert(out@ =~= comma_list(sql_each(s, bq)));
        }
        i += 1;
    }
    proof {
        assert(vs.subrange(0, vs.len() as int) =~= vs);
    }
    out
}

/// The texts of each of `v`.
fn sql_texts(v: &Vec<ExprT>, bq: bool) -> (r: Vec<String>)
    ensures
        r@.map_values(|s: String| s@) == sql_each(expr_views(v@), bq),
    decreases v, 1int,
{
    proof {
        lemma_expr_views(v@);
    }
    let ghost vs = expr_views(v@);
    let mut out: Vec<String> = Vec::new();
    let mut i: usize = 0;
    assert(vs.subrange(0, 0) =~= Seq::<ExprTV>::empty());
    assert(out@.map_values(|s: String| s@) =~= sql_each(vs.subrange(0, 0), bq));
    while i < v.len()
        invariant
            vs == expr_views(v@),
            vs.len() == v@.len(),
            forall|q: int| 0 <= q < v@.len() ==> #[trigger] vs[q] == v@[q]@,
            i <= v@.len(),
            out@.map_values(|s: String| s@) == sql_each(vs.subrange(0, i as int), bq),
        decreases v@.len() - i,
    {
        proof {
            assert(decreases_to!(v => v[i as int]));
            let s = vs.subrange(0, i + 1);
            assert(s.drop_last() =~= vs.subrange(0, i as int));
        }
        out.push(expr_sql(&v[i], bq));
        assert(out@.map_values(|s: String| s@) =~= sql_each(vs.subrange(0, i + 1), bq));
        i += 1;
    }
    proof {
        assert(vs.subrange(0, vs.len() as int) =~= vs);
    }
    out
}

fn box_sql(b: &Box<ExprT>, bq: bool) -> (r: String)
    ensures
        r@ == sql_expr(b@, bq),
    decreases b, 1int,
{
    expr_sql(&**b, bq)
}

/// The SQL text of an expression.
pub fn expr_sql(e: &ExprT, bq: bool) -> (r: String)
    ensures
        r@ == sql_expr(e@, bq),
    decreases e, 0int,
{
    proof {
        assert(decreases_to!(e => e.root));
    }
    let r = match &e.root {
        Expr::Column(k) => k.to_string(),
        Expr::Literal(l) => match l {
            LiteralValue::Long(n) => int_sql(*n),
            LiteralValue::Double(t) => t.clone(),
            LiteralValue::Boolean(b) => if *b {
                String::from_str("TRUE")
            } else {
                String::from_str("FALSE")
            },
            LiteralValue::StringLiteral(s) => quote_sql(s.as_str()),
            LiteralValue::Null => String::from_str("NULL"),
        },
        Expr::As { expr, alias } => box_sql(expr, bq).concat(" AS ").concat(alias.as_str()),
        Expr::Function { name, args, distinct } => {
            proof {
                assert(decreases_to!(e.root => e.root->args));
            }
            let mut s = String::from_str(function_sql(*name)).concat("(");
            if *distinct {
                s.append("DISTINCT ");
            }
            s.concat(sql_list(args, bq).as_str()).concat(")")
        },
        Expr::IsNull(x) => box_sql(x, bq).concat(" IS NULL"),
        Expr::IsNotNull(x) => box_sql(x, bq).concat(" IS NOT NULL"),
        Expr::InList { expr, list, negated } => {
            proof {
                assert(decreases_to!(e.root => e.root->list));
            }
            let head = box_sql(expr, bq);
            let kw = if *negated {
                " NOT IN ("
            } else {
                " IN ("
            };
            head.concat(kw).concat(sql_list(list, bq).as_str()).concat(")")
        },
        Expr::Between { expr, low, high, negated } => {
            let kw = if *negated {
                " NOT BETWEEN "
            } else {
                " BETWEEN "
            };
            box_sql(expr, bq).concat(kw).concat(box_sql(low, bq).as_str()).concat(" AND ").concat(
                box_sql(high, bq).as_str(),
            )
        },
        Expr::UnaryOp { op, expr } => {
            let kw = match op {
                UnaryOperator::Plus => "+",
                UnaryOperator::Minus => "-",
                UnaryOperator::Not => "NOT ",
            };
            String::from_str(kw).concat(box_sql(expr, bq).as_str())
        },
        Expr::BinaryOp { left, op, right } => String::from_str("(").concat(
            box_sql(left, bq).as_str(),
        ).concat(" ").concat(binary_sql(*op)).concat(" ").concat(box_sql(right, bq).as_str()).concat(
            ")",
        ),
        Expr::Case { conditions, results, else_result } => {
            proof {
                assert(decreases_to!(e.root => e.root->conditions));
                assert(decreases_to!(e.root => e.root->results));
            }
            let c = sql_texts(conditions, bq);
            let r = sql_texts(results, bq);
            let ghost cv = c@.map_values(|s: String| s@);
            let ghost rv = r@.map_values(|s: String| s@);
            proof {
                lemma_expr_views(conditions@);
                lemma_expr_views(results@);
                lemma_sql_each_len(expr_views(conditions@), bq);
                lemma_sql_each_len(expr_views(results@), bq);
            }
            let n = if c.len() < r.len() {
                c.len()
            } else {
                r.len()
            };
            let mut s = String::from_str("CASE");
            let mut i: usize = 0;
            while i < n
                invariant
                    n <= c@.len(),
                    n <= r@.len(),
                    cv == c@.map_values(|s: String| s@),
                    rv == r@.map_values(|s: String| s@),
                    i <= n,
                    s@ == "CASE"@ + when_list(cv, rv, i as nat),
                decreases n - i,
            {
                s.append(" WHEN ");
                s.append(c[i].as_str());
                s.append(" THEN ");
                s.append(r[i].as_str());
                proof {
                    assert(s@ =~= "CASE"@ + when_list(cv, rv, (i + 1) as nat));
                }
                i += 1;
            }
            match else_result {
                Some(x) => {
                    s.append(" ELSE ");
                    s.append(box_sql(x, bq).as_str());
                },
                None => {},
            }
            s.concat(" END")
        },
        Expr::Hash { algo: _, expr, salt } => {
            let inner = box_sql(expr, bq);
            if bq {
                let encoded = encode_salt(salt.as_str());
                bigquery_hash_sql(encoded.as_str(), inner.as_str())
            } else {
                String::from_str("SHA256(CONCAT(").concat(quote_sql(salt.as_str()).as_str()).concat(
                    ", ",
                ).concat(inner.as_str()).concat("))")
            }
        },
        Expr::Replace { expr, pattern, with } => String::from_str("REPLACE(").concat(
            box_sql(expr, bq).as_str(),
        ).concat(", ").concat(box_sql(pattern, bq).as_str()).concat(", ").concat(
            box_sql(with, bq).as_str(),
        ).concat(")"),
        Expr::Noisy { expr, distribution } => match distribution {
            Distribution::Laplace { mean, variance_num, variance_den } => String::from_str(
                "(",
            ).concat(box_sql(expr, bq).as_str()).concat(" + LAPLACE_NOISE(").concat(
                int_sql(*mean).as_str(),
            ).concat(", ").concat(decimal_text(*variance_num).as_str()).concat(" / ").concat(
                decimal_text(*variance_den).as_str(),
            ).concat("))"),
        },
    };
    assert(r@ =~= sql_expr(e@, bq));
    r
}

} // verus!
