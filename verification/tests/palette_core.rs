//! End-to-end checks of the palette core: the expression engine, the
//! binding table, the HSV conversion layer, and the batch renderer.

use colorgen::model::{hsv, hsv_as_rgba_hex};
use colorgen::table::{expr_list_from_model, render_range, TableError};
use colorgen::{ExprList, Scalar, VarMap};

fn seeded_hsv_table(h: &str, s: &str, v: &str) -> ExprList {
    let model = hsv();
    let mut table = expr_list_from_model(&model);
    assert!(table.set_expression("h", h));
    assert!(table.set_expression("s", s));
    assert!(table.set_expression("v", v));
    table
}

#[test]
fn render_returns_exactly_count_values() {
    let model = hsv();
    let table = seeded_hsv_table("x * 10", "1", "1");
    for count in [0u32, 1, 2, 7, 32] {
        let out = render_range(&model, &table, count);
        assert_eq!(out.len(), count as usize);
    }
}

#[test]
fn render_is_deterministic() {
    let model = hsv();
    let table = seeded_hsv_table("x * 10", "1", "0.5");
    let a = render_range(&model, &table, 16);
    let b = render_range(&model, &table, 16);
    assert_eq!(a, b);
}

#[test]
fn render_zero_count_is_empty() {
    let model = hsv();
    let table = seeded_hsv_table("x", "1", "1");
    let out = render_range(&model, &table, 0);
    assert!(out.is_empty());
}

#[test]
fn constant_rows_round_trip_through_conversion() {
    let model = hsv();
    let table = seeded_hsv_table("5", "5", "5");
    let rendered = render_range(&model, &table, 1);
    let five = Scalar::from_units(5);
    let direct = model.convert_one(&vec![five, five, five]);
    assert_eq!(rendered, vec![direct]);
}

#[test]
fn aux_row_named_like_loop_variable_is_rejected() {
    let model = hsv();
    let mut table = expr_list_from_model(&model);
    let r = table.add_aux_row("x", "1");
    assert_eq!(r, Err(TableError::NameCollision));
    assert!(table.expr_rows.is_empty());
    assert_eq!(table.model_expr_rows.len(), 3);
}

#[test]
fn aux_row_named_like_model_input_is_rejected() {
    let model = hsv();
    let mut table = expr_list_from_model(&model);
    for reserved in ["h", "s", "v"] {
        let r = table.add_aux_row(reserved, "1");
        assert_eq!(r, Err(TableError::NameCollision));
    }
    assert!(table.expr_rows.is_empty());
    for (row, name) in table.model_expr_rows.iter().zip(["h", "s", "v"]) {
        assert_eq!(row.var, name);
        assert_eq!(row.expr, "");
    }
}

#[test]
fn aux_row_with_fresh_name_is_added() {
    let model = hsv();
    let mut table = expr_list_from_model(&model);
    assert_eq!(table.add_aux_row("warmth", "0.25"), Ok(()));
    assert_eq!(table.expr_rows.len(), 1);
    assert_eq!(table.expr_rows[0].var, "warmth");
    assert_eq!(table.expr_rows[0].expr, "0.25");
}

#[test]
fn positional_and_named_conversion_agree() {
    let model = hsv();
    let cases = [
        (120_000i64, 1_000i64, 1_000i64),
        (10_000, 500, 250),
        (359_999, 1_000, 1),
        (0, 0, 0),
    ];
    for (h, s, v) in cases {
        let hs = Scalar { milli: h };
        let ss = Scalar { milli: s };
        let vs = Scalar { milli: v };
        let positional = model.convert_one(&vec![hs, ss, vs]);
        let mut named = VarMap::new();
        named.set("h", hs);
        named.set("s", ss);
        named.set("v", vs);
        let batch = model.many_as_rgba_hex(&vec![named]);
        assert_eq!(batch.len(), 1);
        assert_eq!(batch[0], positional);
    }
}

#[test]
fn index_substitution_steps_the_hue() {
    let model = hsv();
    let table = seeded_hsv_table("x * 10", "1", "1");
    let out = render_range(&model, &table, 3);
    // hues 0, 10 and 20 degrees at full saturation and value
    assert_eq!(out, vec![0xFF0000FF, 0xFF2A00FF, 0xFF5500FF]);
}

#[test]
fn malformed_row_still_renders_and_reads_as_zero() {
    let model = hsv();
    let table = seeded_hsv_table("1 +", "1", "1");
    let out = render_range(&model, &table, 3);
    assert_eq!(out.len(), 3);
    // the hue input falls back to zero: pure red at full saturation
    for hex in out {
        assert_eq!(hex, 0xFF0000FF);
    }
}

#[test]
fn alpha_byte_is_always_full() {
    let model = hsv();
    let table = seeded_hsv_table("x * 37", "0.8", "0.9");
    for hex in render_range(&model, &table, 24) {
        assert_eq!(hex & 0xFF, 0xFF);
    }
}

#[test]
fn hue_wraps_around_the_circle() {
    let s = Scalar { milli: 1_000 };
    let v = Scalar { milli: 1_000 };
    let wrapped = hsv_as_rgba_hex(Scalar { milli: 370_000 }, s, v);
    let plain = hsv_as_rgba_hex(Scalar { milli: 10_000 }, s, v);
    assert_eq!(wrapped, plain);
    let negative = hsv_as_rgba_hex(Scalar { milli: -350_000 }, s, v);
    assert_eq!(negative, plain);
}

#[test]
fn saturation_and_value_clamp() {
    let h = Scalar { milli: 200_000 };
    let over = hsv_as_rgba_hex(h, Scalar { milli: 2_000 }, Scalar { milli: 3_000 });
    let unit = hsv_as_rgba_hex(h, Scalar { milli: 1_000 }, Scalar { milli: 1_000 });
    assert_eq!(over, unit);
    let under = hsv_as_rgba_hex(h, Scalar { milli: -500 }, Scalar { milli: -1 });
    let zero = hsv_as_rgba_hex(h, Scalar { milli: 0 }, Scalar { milli: 0 });
    assert_eq!(under, zero);
}

#[test]
fn model_exposes_name_and_ordered_inputs() {
    let model = hsv();
    assert_eq!(model.name(), "hsv");
    let inputs = model.inputs();
    assert_eq!(inputs, vec!["h", "s", "v"]);
    assert_eq!(model.num_inputs(), 3);
}

#[test]
fn seeding_creates_one_empty_row_per_input() {
    let model = hsv();
    let table = expr_list_from_model(&model);
    assert!(table.expr_rows.is_empty());
    assert_eq!(table.model_expr_rows.len(), 3);
    for (row, name) in table.model_expr_rows.iter().zip(["h", "s", "v"]) {
        assert_eq!(row.var, name);
        assert_eq!(row.expr, "");
    }
}

#[test]
fn set_expression_reports_unknown_rows() {
    let model = hsv();
    let mut table = expr_list_from_model(&model);
    assert!(table.set_expression("h", "42"));
    assert_eq!(table.model_expr_rows[0].expr, "42");
    assert!(!table.set_expression("nope", "42"));
}

#[test]
fn set_expression_edits_aux_rows_too() {
    let model = hsv();
    let mut table = expr_list_from_model(&model);
    assert_eq!(table.add_aux_row("warmth", "1"), Ok(()));
    assert!(table.set_expression("warmth", "2"));
    assert_eq!(table.expr_rows[0].expr, "2");
}

#[test]
fn method_form_renders_like_the_free_function() {
    let model = hsv();
    let table = seeded_hsv_table("x * 10", "1", "1");
    assert_eq!(
        table.render_rgb_hexes_simple_domain(&model, 5),
        render_range(&model, &table, 5)
    );
}

#[test]
fn evaluate_all_resolves_every_input() {
    let model = hsv();
    let table = seeded_hsv_table("x + 1", "0.5", "1 +");
    let mut ctx = VarMap::new();
    ctx.set("x", Scalar::from_units(2));
    let resolved = table.evaluate_all(&ctx);
    assert_eq!(resolved.get("h").unwrap().milli, 3_000);
    assert_eq!(resolved.get("s").unwrap().milli, 500);
    // the failing row follows the documented fallback and reads as zero
    assert_eq!(resolved.get("v").unwrap().milli, 0);
    assert!(resolved.get("x").is_none());
}

#[test]
fn duplicated_contexts_agree() {
    let mut ctx = VarMap::new();
    ctx.set("x", Scalar { milli: 1_234 });
    let copy = ctx.duplicate();
    assert_eq!(copy.get("x").unwrap().milli, 1_234);
    assert!(copy.get("y").is_none());
}

#[test]
fn aux_rows_feed_model_rows() {
    let model = hsv();
    let mut table = seeded_hsv_table("a * 2", "1", "1");
    assert_eq!(table.add_aux_row("a", "10"), Ok(()));
    let direct = seeded_hsv_table("20", "1", "1");
    assert_eq!(
        render_range(&model, &table, 2),
        render_range(&model, &direct, 2)
    );
}

#[test]
fn aux_rows_may_reference_earlier_aux_rows() {
    let model = hsv();
    let mut table = seeded_hsv_table("b * 2", "1", "1");
    assert_eq!(table.add_aux_row("a", "5"), Ok(()));
    assert_eq!(table.add_aux_row("b", "a + 5"), Ok(()));
    let direct = seeded_hsv_table("20", "1", "1");
    assert_eq!(
        render_range(&model, &table, 2),
        render_range(&model, &direct, 2)
    );
}
