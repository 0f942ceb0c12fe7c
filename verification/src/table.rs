//! The expression binding table and the batch renderer.
//!
//! A table holds one model-bound row per color-model input and any number
//! of user-defined auxiliary rows; each row binds a variable name to an
//! expression text. Rendering an index range seeds the loop variable `x`
//! with the index, evaluates the auxiliary rows into the context in
//! order, resolves every model input, and converts the resolved inputs
//! to one RGBA value per index.
//!
//! Failure policy: a row whose text does not parse or does not evaluate
//! never aborts a render; the affected input reads as zero for that
//! index. Name collisions are structural errors instead, rejected when
//! the offending row is added and never reaching the render path.

use vstd::prelude::*;

use crate::expr::{
    digits_len, digits_val, eval_text, spec_eval_text, spec_lex, spec_parse, spec_parse_loop,
    spec_tokenize, SpecExpr, SpecTok,
};
use crate::model::{model_inputs, named_vals, spec_convert, spec_convert_named, ColorModel};
use crate::scalar::Scalar;
use crate::vars::{str_eq, VarMap};

verus! {

/// One row of the table: a variable name bound to an expression text.
pub struct ExprRow {
    /// The variable this row defines.
    pub var: String,
    /// The source text of the row's expression.
    pub expr: String,
}

/// The name and text of each row, as the specification sees them.
pub open spec fn rows_view(rows: Seq<ExprRow>) -> Seq<(Seq<char>, Seq<char>)> {
    rows.map_values(|r: ExprRow| (r.var@, r.expr@))
}

/// The expression binding table of one color model.
pub struct ExprList {
    /// User-defined auxiliary rows, evaluated into the context in order
    /// before any model-bound row.
    pub expr_rows: Vec<ExprRow>,
    /// Model-bound rows, one per model input, in the model's input
    /// order. Their names are reserved.
    pub model_expr_rows: Vec<ExprRow>,
}

/// The index of the first row bound to `name`, or -1.
pub open spec fn find_row(rows: Seq<(Seq<char>, Seq<char>)>, name: Seq<char>) -> int
    decreases rows.len(),
{
    if rows.len() == 0 {
        -1
    } else if rows[0].0 == name {
        0
    } else {
        let rest = find_row(rows.drop_first(), name);
        if rest == -1 {
            -1
        } else {
            rest + 1
        }
    }
}

proof fn lemma_find_row_at(rows: Seq<(Seq<char>, Seq<char>)>, name: Seq<char>, i: int)
    requires
        0 <= i < rows.len(),
        rows[i].0 == name,
        forall|j: int| 0 <= j < i ==> rows[j].0 != name,
    ensures
        find_row(rows, name) == i,
    decreases i,
{
    if i > 0 {
        lemma_find_row_at(rows.drop_first(), name, i - 1);
    }
}

proof fn lemma_find_row_absent(rows: Seq<(Seq<char>, Seq<char>)>, name: Seq<char>)
    requires
        forall|j: int| 0 <= j < rows.len() ==> rows[j].0 != name,
    ensures
        find_row(rows, name) == -1,
    decreases rows.len(),
{
    if rows.len() > 0 {
        lemma_find_row_absent(rows.drop_first(), name);
    }
}

/// The context after the auxiliary rows have run in order: a row whose
/// text evaluates binds its variable; a row that fails changes nothing.
pub open spec fn spec_aux_pass(
    rows: Seq<(Seq<char>, Seq<char>)>,
    ctx: Map<Seq<char>, int>,
) -> Map<Seq<char>, int>
    decreases rows.len(),
{
    if rows.len() == 0 {
        ctx
    } else {
        let prev = spec_aux_pass(rows.drop_last(), ctx);
        match spec_eval_text(rows.last().1, prev) {
            Some(val) => prev.insert(rows.last().0, val),
            None => prev,
        }
    }
}

/// The named inputs the model-bound rows resolve to under a context:
/// every row contributes its name, with the value of its text, or zero
/// where the text does not parse or does not evaluate.
pub open spec fn spec_inputs_map(
    rows: Seq<(Seq<char>, Seq<char>)>,
    ctx: Map<Seq<char>, int>,
) -> Map<Seq<char>, int>
    decreases rows.len(),
{
    if rows.len() == 0 {
        Map::empty()
    } else {
        spec_inputs_map(rows.drop_last(), ctx).insert(
            rows.last().0,
            match spec_eval_text(rows.last().1, ctx) {
                Some(v) => v,
                None => 0,
            },
        )
    }
}

/// The context a render seeds for index `n`: only the loop variable `x`,
/// bound to `n` in fixed-point units.
pub open spec fn spec_index_ctx(n: int) -> Map<Seq<char>, int> {
    Map::empty().insert("x"@, n * 1000)
}

/// The RGBA value a table and model produce at index `n`.
pub open spec fn spec_render_at(
    m: ColorModel,
    aux: Seq<(Seq<char>, Seq<char>)>,
    model_rows: Seq<(Seq<char>, Seq<char>)>,
    n: int,
) -> int {
    spec_convert_named(m, spec_inputs_map(model_rows, spec_aux_pass(aux, spec_index_ctx(n))))
}

/// The RGBA values a table and model produce over `[0, count)`, in
/// ascending index order.
pub open spec fn spec_render_range(
    m: ColorModel,
    aux: Seq<(Seq<char>, Seq<char>)>,
    model_rows: Seq<(Seq<char>, Seq<char>)>,
    count: int,
) -> Seq<int> {
    Seq::new(count as nat, |i: int| spec_render_at(m, aux, model_rows, i))
}

/// The structural error of the table: an auxiliary row may not reuse a
/// reserved name.
#[derive(Clone, Copy, PartialEq, Eq, Structural, Debug)]
pub enum TableError {
    /// The name is the loop variable or a model input.
    NameCollision,
}

/// Seeds a table for a model: one model-bound row per input, in input
/// order, each with empty expression text, and no auxiliary rows.
pub fn expr_list_from_model(model: &ColorModel) -> (r: ExprList)
    ensures
        rows_view(r.expr_rows@) =~= Seq::<(Seq<char>, Seq<char>)>::empty(),
        rows_view(r.model_expr_rows@).len() == model_inputs(*model).len(),
        forall|i: int|
            0 <= i < model_inputs(*model).len() ==> rows_view(r.model_expr_rows@)[i]
                == (model_inputs(*model)[i], Seq::<char>::empty()),
{
    let names = model.inputs();
    let mut rows: Vec<ExprRow> = Vec::new();
    let mut i: usize = 0;
    while i < names.len()
        invariant
            i <= names@.len(),
            rows@.len() == i,
            forall|j: int| 0 <= j < names@.len() ==> names@[j]@ == model_inputs(*model)[j],
            forall|j: int|
                0 <= j < i ==> rows@[j].var@ == model_inputs(*model)[j] && rows@[j].expr@
                    == Seq::<char>::empty(),
        decreases names@.len() - i,
    {
        let var = names[i].clone();
        rows.push(ExprRow { var, expr: String::new() });
        i = i + 1;
    }
    ExprList { expr_rows: Vec::new(), model_expr_rows: rows }
}

impl ExprList {
    /// Replaces the text of the first row bound to `row_name`, looking
    /// at model-bound rows first, and reports whether such a row exists.
    /// No evaluation happens here.
    pub fn set_expression(&mut self, row_name: &str, text: &str) -> (r: bool)
        ensures
            ({
                let mv = rows_view(old(self).model_expr_rows@);
                let av = rows_view(old(self).expr_rows@);
                let ki = find_row(mv, row_name@);
                let ka = find_row(av, row_name@);
                if ki >= 0 {
                    &&& rows_view(final(self).model_expr_rows@) == mv.update(
                        ki,
                        (mv[ki].0, text@),
                    )
                    &&& rows_view(final(self).expr_rows@) == av
                    &&& r == true
                } else if ka >= 0 {
                    &&& rows_view(final(self).model_expr_rows@) == mv
                    &&& rows_view(final(self).expr_rows@) == av.update(ka, (av[ka].0, text@))
                    &&& r == true
                } else {
                    &&& rows_view(final(self).model_expr_rows@) == mv
                    &&& rows_view(final(self).expr_rows@) == av
                    &&& r == false
                }
            }),
    {
        let ghost mv = rows_view(self.model_expr_rows@);
        let ghost av = rows_view(self.expr_rows@);
        let mut i: usize = 0;
        while i < self.model_expr_rows.len()
            invariant
                i <= self.model_expr_rows@.len(),
                self.model_expr_rows@ == old(self).model_expr_rows@,
                self.expr_rows@ == old(self).expr_rows@,
                mv == rows_view(self.model_expr_rows@),
                forall|j: int| 0 <= j < i ==> mv[j].0 != row_name@,
            decreases self.model_expr_rows@.len() - i,
        {
            if str_eq(self.model_expr_rows[i].var.as_str(), row_name) {
                let var = self.model_expr_rows[i].var.clone();
                self.model_expr_rows.set(i, ExprRow { var, expr: text.to_owned() });
                proof {
                    lemma_find_row_at(mv, row_name@, i as int);
                    assert(rows_view(self.model_expr_rows@) =~= mv.update(
                        i as int,
                        (mv[i as int].0, text@),
                    ));
                }
                return true;
            }
            i = i + 1;
        }
        proof {
            lemma_find_row_absent(mv, row_name@);
        }
        let mut k: usize = 0;
        while k < self.expr_rows.len()
            invariant
                k <= self.expr_rows@.len(),
                self.model_expr_rows@ == old(self).model_expr_rows@,
                self.expr_rows@ == old(self).expr_rows@,
                mv == rows_view(self.model_expr_rows@),
                av == rows_view(self.expr_rows@),
                find_row(mv, row_name@) == -1,
                forall|j: int| 0 <= j < k ==> av[j].0 != row_name@,
            decreases self.expr_rows@.len() - k,
        {
            if str_eq(self.expr_rows[k].var.as_str(), row_name) {
                let var = self.expr_rows[k].var.clone();
                self.expr_rows.set(k, ExprRow { var, expr: text.to_owned() });
                proof {
                    lemma_find_row_at(av, row_name@, k as int);
                    assert(rows_view(self.expr_rows@) =~= av.update(
                        k as int,
                        (av[k as int].0, text@),
                    ));
                }
                return true;
            }
            k = k + 1;
        }
        proof {
            lemma_find_row_absent(av, row_name@);
        }
        false
    }

    /// Adds an auxiliary row, rejecting a name that collides with the
    /// loop variable `x` or a model input name; on rejection the table
    /// is unchanged.
    pub fn add_aux_row(&mut self, name: &str, text: &str) -> (r: Result<(), TableError>)
        ensures
            ({
                let mv = rows_view(old(self).model_expr_rows@);
                let av = rows_view(old(self).expr_rows@);
                let reserved = name@ == "x"@ || find_row(mv, name@) >= 0;
                match r {
                    Err(TableError::NameCollision) => {
                        &&& reserved
                        &&& rows_view(final(self).model_expr_rows@) == mv
                        &&& rows_view(final(self).expr_rows@) == av
                    },
                    Ok(()) => {
                        &&& !reserved
                        &&& rows_view(final(self).model_expr_rows@) == mv
                        &&& rows_view(final(self).expr_rows@) == av.push((name@, text@))
                    },
                }
            }),
    {
        let ghost mv = rows_view(self.model_expr_rows@);
        if str_eq(name, "x") {
            return Err(TableError::NameCollision);
        }
        let mut i: usize = 0;
        while i < self.model_expr_rows.len()
            invariant
                i <= self.model_expr_rows@.len(),
                self.model_expr_rows@ == old(self).model_expr_rows@,
                self.expr_rows@ == old(self).expr_rows@,
                mv == rows_view(self.model_expr_rows@),
                forall|j: int| 0 <= j < i ==> mv[j].0 != name@,
            decreases self.model_expr_rows@.len() - i,
        {
            if str_eq(self.model_expr_rows[i].var.as_str(), name) {
                proof {
                    lemma_find_row_at(mv, name@, i as int);
                }
                return Err(TableError::NameCollision);
            }
            i = i + 1;
        }
        proof {
            lemma_find_row_absent(mv, name@);
        }
        self.expr_rows.push(ExprRow { var: name.to_owned(), expr: text.to_owned() });
        proof {
            assert(rows_view(self.expr_rows@) =~= rows_view(old(self).expr_rows@).push(
                (name@, text@),
            ));
        }
        Ok(())
    }

    /// Resolves every model input under `ctx`: runs the auxiliary rows
    /// into the context in order, then evaluates each model-bound row,
    /// reading a failing row as zero.
    pub fn evaluate_all(&self, ctx: &VarMap) -> (r: VarMap)
        ensures
            r@ == spec_inputs_map(
                rows_view(self.model_expr_rows@),
                spec_aux_pass(rows_view(self.expr_rows@), ctx@),
            ),
    {
        let ghost av = rows_view(self.expr_rows@);
        let ghost mrows = rows_view(self.model_expr_rows@);
        let mut work = ctx.duplicate();
        let mut i: usize = 0;
        proof {
            assert(av.take(0) =~= Seq::<(Seq<char>, Seq<char>)>::empty());
        }
        while i < self.expr_rows.len()
            invariant
                i <= self.expr_rows@.len(),
                av == rows_view(self.expr_rows@),
                work@ == spec_aux_pass(av.take(i as int), ctx@),
            decreases self.expr_rows@.len() - i,
        {
            let row_val = eval_text(self.expr_rows[i].expr.as_str(), &work);
            match row_val {
                Ok(v) => {
                    work.set(self.expr_rows[i].var.as_str(), v);
                },
                Err(_) => {},
            }
            i = i + 1;
            proof {
                assert(av.take(i as int).drop_last() =~= av.take(i as int - 1));
                assert(av.take(i as int).last() == av[i as int - 1]);
            }
        }
        proof {
            assert(av.take(self.expr_rows@.len() as int) =~= av);
        }
        let mut out = VarMap::new();
        let mut k: usize = 0;
        proof {
            assert(mrows.take(0) =~= Seq::<(Seq<char>, Seq<char>)>::empty());
        }
        while k < self.model_expr_rows.len()
            invariant
                k <= self.model_expr_rows@.len(),
                mrows == rows_view(self.model_expr_rows@),
                work@ == spec_aux_pass(rows_view(self.expr_rows@), ctx@),
                out@ == spec_inputs_map(mrows.take(k as int), work@),
            decreases self.model_expr_rows@.len() - k,
        {
            let v = match eval_text(self.model_expr_rows[k].expr.as_str(), &work) {
                Ok(v) => v,
                Err(_) => Scalar::zero(),
            };
            out.set(self.model_expr_rows[k].var.as_str(), v);
            k = k + 1;
            proof {
                assert(mrows.take(k as int).drop_last() =~= mrows.take(k as int - 1));
                assert(mrows.take(k as int).last() == mrows[k as int - 1]);
            }
        }
        proof {
            assert(mrows.take(self.model_expr_rows@.len() as int) =~= mrows);
        }
        out
    }

    /// Renders expressions into a list of RGBA hex colors, one for each
    /// index from 0 to `color_count`, supplying the index as the context
    /// variable `x`.
    pub fn render_rgb_hexes_simple_domain(&self, color_model: &ColorModel, color_count: u32) -> (r:
        Vec<u32>)
        ensures
            r@.len() == color_count as int,
            forall|i: int|
                0 <= i < color_count as int ==> r@[i] as int == spec_render_at(
                    *color_model,
                    rows_view(self.expr_rows@),
                    rows_view(self.model_expr_rows@),
                    i,
                ),
            r@.map_values(|u: u32| u as int) == spec_render_range(
                *color_model,
                rows_view(self.expr_rows@),
                rows_view(self.model_expr_rows@),
                color_count as int,
            ),
    {
        render_range(color_model, self, color_count)
    }
}

/// Renders the index range `[0, count)`: for each `n`, the context binds
/// `x = n`, the table resolves every model input, and the model converts
/// them. The result has exactly `count` values, in ascending index
/// order, and depends on nothing but the model, the table's rows and
/// `count`.
pub fn render_range(model: &ColorModel, table: &ExprList, count: u32) -> (r: Vec<u32>)
    ensures
        r@.len() == count as int,
        forall|i: int|
            0 <= i < count as int ==> r@[i] as int == spec_render_at(
                *model,
                rows_view(table.expr_rows@),
                rows_view(table.model_expr_rows@),
                i,
            ),
        r@.map_values(|u: u32| u as int) == spec_render_range(
            *model,
            rows_view(table.expr_rows@),
            rows_view(table.model_expr_rows@),
            count as int,
        ),
{
    let mut out: Vec<u32> = Vec::new();
    let mut n: u32 = 0;
    while n < count
        invariant
            n <= count,
            out@.len() == n as int,
            forall|i: int|
                0 <= i < n as int ==> out@[i] as int == spec_render_at(
                    *model,
                    rows_view(table.expr_rows@),
                    rows_view(table.model_expr_rows@),
                    i,
                ),
        decreases count - n,
    {
        let mut ctx = VarMap::new();
        ctx.set("x", Scalar { milli: (n as i64) * 1000 });
        let inputs = table.evaluate_all(&ctx);
        let hex = model.as_rgba_hex(&inputs);
        out.push(hex);
        n = n + 1;
    }
    proof {
        assert(out@.map_values(|u: u32| u as int) =~= spec_render_range(
            *model,
            rows_view(table.expr_rows@),
            rows_view(table.model_expr_rows@),
            count as int,
        ));
    }
    out
}

/// A render over zero indices is the empty sequence.
pub proof fn lemma_render_empty(
    m: ColorModel,
    aux: Seq<(Seq<char>, Seq<char>)>,
    model_rows: Seq<(Seq<char>, Seq<char>)>,
)
    ensures
        spec_render_range(m, aux, model_rows, 0) =~= Seq::<int>::empty(),
{
}

/// Every model-bound row resolves to a named input: the value of its
/// text, or zero where the text fails. `i` must be the row that settles
/// the name, that is, no later row re-binds it.
pub proof fn lemma_inputs_map_at(
    rows: Seq<(Seq<char>, Seq<char>)>,
    ctx: Map<Seq<char>, int>,
    i: int,
)
    requires
        0 <= i < rows.len(),
        forall|j: int| i < j < rows.len() ==> rows[j].0 != rows[i].0,
    ensures
        spec_inputs_map(rows, ctx).contains_key(rows[i].0),
        spec_inputs_map(rows, ctx)[rows[i].0] == (match spec_eval_text(rows[i].1, ctx) {
            Some(v) => v,
            None => 0,
        }),
    decreases rows.len(),
{
    if i < rows.len() - 1 {
        lemma_inputs_map_at(rows.drop_last(), ctx, i);
    }
}

/// Binding every model input of the HSV model to the constant text `"5"`
/// and rendering any single index yields exactly the color of converting
/// the constant vector `[5, 5, 5]` through the conversion layer.
pub proof fn lemma_constant_roundtrip(n: int)
    ensures
        spec_render_at(
            ColorModel::Hsv,
            Seq::empty(),
            seq![("h"@, "5"@), ("s"@, "5"@), ("v"@, "5"@)],
            n,
        ) == spec_convert(ColorModel::Hsv, seq![5000, 5000, 5000]),
{
    reveal_strlit("5");
    reveal_strlit("h");
    reveal_strlit("s");
    reveal_strlit("v");
    let ctx0 = spec_index_ctx(n);
    let rows = seq![("h"@, "5"@), ("s"@, "5"@), ("v"@, "5"@)];
    // the auxiliary pass over no rows leaves the context alone
    assert(spec_aux_pass(Seq::empty(), ctx0) == ctx0);
    // the text "5" stands for the constant 5.000
    reveal_with_fuel(spec_lex, 3);
    reveal_with_fuel(digits_len, 3);
    reveal_with_fuel(digits_val, 3);
    assert("5"@.len() == 1 && "5"@[0] == '5');
    assert(digits_len("5"@, 0) == 1);
    assert(digits_val("5"@, 0, 1) == 5);
    assert(Seq::<SpecTok>::empty().push(SpecTok::Num(5000)) =~= seq![SpecTok::Num(5000)]);
    assert(spec_tokenize("5"@) == Some(seq![SpecTok::Num(5000)]));
    reveal_with_fuel(spec_parse_loop, 2);
    assert(spec_parse(seq![SpecTok::Num(5000)]) == Some(SpecExpr::Lit(5000)));
    assert(spec_eval_text("5"@, ctx0) == Some(5000int));
    // each model-bound row resolves its input to 5.000
    assert("h"@[0] == 'h' && "s"@[0] == 's' && "v"@[0] == 'v');
    assert("h"@ != "s"@ && "h"@ != "v"@ && "s"@ != "v"@);
    lemma_inputs_map_at(rows, ctx0, 0);
    lemma_inputs_map_at(rows, ctx0, 1);
    lemma_inputs_map_at(rows, ctx0, 2);
    let im = spec_inputs_map(rows, ctx0);
    assert(named_vals(ColorModel::Hsv, im) =~= seq![5000, 5000, 5000]);
}

/// The documented fallback policy: a model-bound row whose text does not
/// parse or does not evaluate contributes zero for that index, and the
/// render goes on.
pub proof fn lemma_failed_row_defaults(
    rows: Seq<(Seq<char>, Seq<char>)>,
    ctx: Map<Seq<char>, int>,
    i: int,
)
    requires
        0 <= i < rows.len(),
        spec_eval_text(rows[i].1, ctx) is None,
        forall|j: int| i < j < rows.len() ==> rows[j].0 != rows[i].0,
    ensures
        spec_inputs_map(rows, ctx).contains_key(rows[i].0),
        spec_inputs_map(rows, ctx)[rows[i].0] == 0,
{
    lemma_inputs_map_at(rows, ctx, i);
}

} // verus!
