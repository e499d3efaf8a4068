use risinglight::binder::{
    AggKind, BinaryOperator, BindError, Binder, BoundAggCall, BoundBinaryOp, BoundColumnRef,
    BoundExpr, BoundTypeCast, ColumnRefId, DataValue, Expr, Function, FunctionArg,
    FunctionArgExpr, TableCatalog,
};
use risinglight::types::{ColumnCatalog, DataType, DataTypeKind};

fn tables() -> Vec<TableCatalog> {
    vec![
        TableCatalog {
            id: 10,
            name: "s".to_string(),
            columns: vec![ColumnCatalog::new(
                3,
                DataTypeKind::Double.nullable().to_column("x".to_string()),
            )],
        },
        TableCatalog {
            id: 11,
            name: "t".to_string(),
            columns: vec![
                ColumnCatalog::new(1, DataTypeKind::BigInt.nullable().to_column("b".to_string())),
                ColumnCatalog::new(
                    0,
                    DataTypeKind::Int.not_null().to_column_primary_key("a".to_string()),
                ),
            ],
        },
    ]
}

fn column(table: &str, column: &str) -> FunctionArg {
    FunctionArg::Unnamed(FunctionArgExpr::Expr(Expr::CompoundIdentifier {
        table: table.to_string(),
        column: column.to_string(),
    }))
}

fn call(name: &str, args: Vec<FunctionArg>) -> Function {
    Function { name: name.to_string(), args }
}

fn t_a() -> BoundExpr {
    BoundExpr::ColumnRef(BoundColumnRef {
        table_name: "t".to_string(),
        column_ref_id: ColumnRefId::from_table(11, 0),
        is_primary_key: true,
        desc: DataTypeKind::Int.not_null().to_column_primary_key("a".to_string()),
    })
}

fn t_b() -> BoundExpr {
    BoundExpr::ColumnRef(BoundColumnRef {
        table_name: "t".to_string(),
        column_ref_id: ColumnRefId::from_table(11, 1),
        is_primary_key: false,
        desc: DataTypeKind::BigInt.nullable().to_column("b".to_string()),
    })
}

#[test]
fn test_agg_kind_names() {
    assert_eq!(AggKind::Avg.name(), "avg");
    assert_eq!(AggKind::RowCount.name(), "count");
    assert_eq!(AggKind::Count.name(), "count");
    assert_eq!(AggKind::Max.name(), "max");
    assert_eq!(AggKind::Min.name(), "min");
    assert_eq!(AggKind::Sum.name(), "sum");
}

#[test]
fn test_agg_kind_from_name() {
    assert_eq!(AggKind::from_name("avg", false), Some(AggKind::Avg));
    assert_eq!(AggKind::from_name("count", true), Some(AggKind::RowCount));
    assert_eq!(AggKind::from_name("count", false), Some(AggKind::Count));
    assert_eq!(AggKind::from_name("max", true), Some(AggKind::Max));
    assert_eq!(AggKind::from_name("min", false), Some(AggKind::Min));
    assert_eq!(AggKind::from_name("sum", false), Some(AggKind::Sum));
    assert_eq!(AggKind::from_name("SUM", false), None);
    assert_eq!(AggKind::from_name("median", false), None);
    assert_eq!(AggKind::from_name("", true), None);
}

#[test]
fn test_bind_sum_max_min() {
    for (name, kind) in [("sum", AggKind::Sum), ("Max", AggKind::Max), ("MIN", AggKind::Min)] {
        let mut binder = Binder::new(tables());
        let bound = binder.bind_function(&call(name, vec![column("t", "b"), column("t", "a")]));
        assert_eq!(
            bound,
            Ok(BoundExpr::AggCall(BoundAggCall {
                kind,
                args: vec![t_b(), t_a()],
                return_type: DataType::new(DataTypeKind::BigInt, true),
            }))
        );
        assert!(binder.referenced_columns().is_empty());
    }
}

#[test]
fn test_bind_count() {
    let mut binder = Binder::new(tables());
    let named = FunctionArg::Named {
        name: "n".to_string(),
        arg: FunctionArgExpr::Expr(Expr::Value(DataValue::Null)),
    };
    assert_eq!(
        binder.bind_function(&call("COUNT", vec![named])),
        Ok(BoundExpr::AggCall(BoundAggCall {
            kind: AggKind::Count,
            args: vec![BoundExpr::Constant(DataValue::Null)],
            return_type: DataType::new(DataTypeKind::Int, false),
        }))
    );
    assert!(binder.referenced_columns().is_empty());
}

#[test]
fn test_bind_row_count() {
    let mut binder = Binder::new(tables());
    let star = FunctionArg::Unnamed(FunctionArgExpr::Wildcard);
    let expected = Ok(BoundExpr::AggCall(BoundAggCall {
        kind: AggKind::RowCount,
        args: vec![t_a()],
        return_type: DataType::new(DataTypeKind::Int, false),
    }));
    // count(*), count() and count(t.b, *, nothing.at_all) all count rows
    assert_eq!(binder.bind_function(&call("count", vec![star.clone()])), expected);
    assert_eq!(binder.bind_function(&call("count", vec![])), expected);
    assert_eq!(
        binder.bind_function(&call(
            "Count",
            vec![column("t", "b"), star, column("nothing", "at_all")]
        )),
        expected
    );
    // column 0 of table t was noted, once
    assert_eq!(binder.referenced_columns(), &vec![ColumnRefId::from_table(11, 0)]);

    // without a column 0 the count has no argument
    let mut binder = Binder::new(vec![tables().remove(0)]);
    assert_eq!(
        binder.bind_function(&call("count", vec![])),
        Ok(BoundExpr::AggCall(BoundAggCall {
            kind: AggKind::RowCount,
            args: vec![],
            return_type: DataType::new(DataTypeKind::Int, false),
        }))
    );
    assert!(binder.referenced_columns().is_empty());
}

#[test]
fn test_bind_avg() {
    let mut binder = Binder::new(tables());
    let bound = binder.bind_function(&call("AvG", vec![column("s", "x")])).unwrap();
    let s_x = BoundExpr::ColumnRef(BoundColumnRef {
        table_name: "s".to_string(),
        column_ref_id: ColumnRefId::from_table(10, 3),
        is_primary_key: false,
        desc: DataTypeKind::Double.nullable().to_column("x".to_string()),
    });
    assert_eq!(
        bound,
        BoundExpr::BinaryOp(BoundBinaryOp {
            op: BinaryOperator::Divide,
            left_expr: Box::new(BoundExpr::AggCall(BoundAggCall {
                kind: AggKind::Sum,
                args: vec![s_x.duplicate()],
                return_type: DataType::new(DataTypeKind::Double, true),
            })),
            right_expr: Box::new(BoundExpr::TypeCast(BoundTypeCast {
                ty: DataTypeKind::Double,
                expr: Box::new(BoundExpr::AggCall(BoundAggCall {
                    kind: AggKind::Count,
                    args: vec![s_x],
                    return_type: DataType::new(DataTypeKind::Int, false),
                })),
            })),
            return_type: Some(DataType::new(DataTypeKind::Double, false)),
        })
    );
    assert_eq!(bound.return_type(), Some(DataType::new(DataTypeKind::Double, false)));
    assert_eq!(bound.duplicate(), bound);
}

#[test]
fn test_bind_errors() {
    let mut binder = Binder::new(tables());
    assert_eq!(
        binder.bind_function(&call("sum", vec![column("u", "a")])),
        Err(BindError::InvalidTable)
    );
    assert_eq!(
        binder.bind_function(&call("sum", vec![column("t", "a"), column("t", "x")])),
        Err(BindError::InvalidColumn)
    );
    // the first argument that cannot be bound decides, whatever follows
    assert_eq!(
        binder.try_bind_function(&call(
            "median",
            vec![column("s", "a"), FunctionArg::Unnamed(FunctionArgExpr::Wildcard)]
        )),
        Some(Err(BindError::InvalidColumn))
    );
    assert_eq!(
        binder.bind_expr(&Expr::CompoundIdentifier { table: "t".to_string(), column: "a".to_string() }),
        Ok(t_a())
    );
    assert_eq!(
        binder.bind_expr(&Expr::Value(DataValue::Int64(-7))),
        Ok(BoundExpr::Constant(DataValue::Int64(-7)))
    );
}

#[test]
fn test_unsupported_calls() {
    let mut binder = Binder::new(tables());
    let unsupported = vec![
        call("median", vec![column("t", "a")]),
        call("max", vec![]),
        call("avg", vec![FunctionArg::Unnamed(FunctionArgExpr::Wildcard)]),
        call("sum", vec![FunctionArg::Unnamed(FunctionArgExpr::Expr(Expr::Value(DataValue::Null)))]),
        call("count", vec![FunctionArg::Unnamed(FunctionArgExpr::QualifiedWildcard("t".to_string()))]),
    ];
    for func in &unsupported {
        assert!(!binder.supports(func));
        assert_eq!(binder.try_bind_function(func), None);
    }
    assert!(binder.referenced_columns().is_empty());
    let supported = call("sum", vec![FunctionArg::Unnamed(FunctionArgExpr::Expr(Expr::Value(DataValue::Int32(1))))]);
    assert!(binder.supports(&supported));
    assert_eq!(
        binder.try_bind_function(&supported),
        Some(Ok(BoundExpr::AggCall(BoundAggCall {
            kind: AggKind::Sum,
            args: vec![BoundExpr::Constant(DataValue::Int32(1))],
            return_type: DataType::new(DataTypeKind::Int, false),
        })))
    );
}

#[test]
fn test_return_types() {
    assert_eq!(BoundExpr::Constant(DataValue::Null).return_type(), None);
    assert_eq!(
        BoundExpr::Constant(DataValue::Bool(true)).return_type(),
        Some(DataType::new(DataTypeKind::Boolean, false))
    );
    assert_eq!(
        BoundExpr::Constant(DataValue::Float64(1.5f64.to_bits())).return_type(),
        Some(DataType::new(DataTypeKind::Double, false))
    );
    assert_eq!(t_b().return_type(), Some(DataType::new(DataTypeKind::BigInt, true)));
    let cast = BoundExpr::TypeCast(BoundTypeCast { ty: DataTypeKind::Int, expr: Box::new(t_b()) });
    assert_eq!(cast.return_type(), Some(DataType::new(DataTypeKind::Int, false)));
}

#[test]
fn test_bind_call() {
    let mut binder = Binder::new(tables());
    // count without arguments counts rows, over column 0 of table t
    assert!(binder.supports_call("count", &vec![]));
    assert_eq!(
        binder.bind_call("count", vec![]),
        Ok(BoundExpr::AggCall(BoundAggCall {
            kind: AggKind::RowCount,
            args: vec![t_a()],
            return_type: DataType::new(DataTypeKind::Int, false),
        }))
    );
    assert_eq!(binder.referenced_columns(), &vec![ColumnRefId::from_table(11, 0)]);
    assert_eq!(
        binder.bind_call("count", vec![t_b()]),
        Ok(BoundExpr::AggCall(BoundAggCall {
            kind: AggKind::Count,
            args: vec![t_b()],
            return_type: DataType::new(DataTypeKind::Int, false),
        }))
    );
    assert_eq!(
        binder.bind_call("min", vec![t_a(), t_b()]),
        Ok(BoundExpr::AggCall(BoundAggCall {
            kind: AggKind::Min,
            args: vec![t_a(), t_b()],
            return_type: DataType::new(DataTypeKind::Int, false),
        }))
    );
    assert_eq!(
        binder.bind_call("avg", vec![t_b()]),
        Ok(BoundExpr::BinaryOp(BoundBinaryOp {
            op: BinaryOperator::Divide,
            left_expr: Box::new(BoundExpr::AggCall(BoundAggCall {
                kind: AggKind::Sum,
                args: vec![t_b()],
                return_type: DataType::new(DataTypeKind::BigInt, true),
            })),
            right_expr: Box::new(BoundExpr::TypeCast(BoundTypeCast {
                ty: DataTypeKind::BigInt,
                expr: Box::new(BoundExpr::AggCall(BoundAggCall {
                    kind: AggKind::Count,
                    args: vec![t_b()],
                    return_type: DataType::new(DataTypeKind::Int, false),
                })),
            })),
            return_type: Some(DataType::new(DataTypeKind::Double, false)),
        }))
    );
    assert_eq!(binder.referenced_columns().len(), 1);
    // the name is taken as it stands: lowering it is the caller's part
    assert!(!binder.supports_call("COUNT", &vec![]));
    assert!(!binder.supports_call("median", &vec![t_a()]));
    assert!(!binder.supports_call("sum", &vec![]));
    assert!(!binder.supports_call("max", &vec![BoundExpr::Constant(DataValue::Null)]));
    assert!(binder.supports_call("sum", &vec![t_a()]));
}
