//! Binding of aggregate function calls: a parsed call such as `sum(t.a)`
//! or `count(*)` becomes a bound expression with its kind, its bound
//! arguments and its return type. `avg` is rewritten into `sum / count`.

use crate::types::{ColumnCatalog, ColumnDesc, ColumnId, DataType, DataTypeKind};
use vstd::pervasive::unreached;
use vstd::prelude::*;
use vstd::string::*;

verus! {

/// Identifier of a table.
pub type TableRefId = u32;

/// Aggregation kind
#[derive(Clone, Copy, Debug, PartialEq, Eq, Structural)]
pub enum AggKind {
    Avg,
    RowCount,
    Max,
    Min,
    Sum,
    Count,
}

impl AggKind {
    /// The name under which the kind is shown.
    pub open spec fn spec_name(self) -> Seq<char> {
        match self {
            AggKind::Avg => "avg"@,
            AggKind::RowCount => "count"@,
            AggKind::Count => "count"@,
            AggKind::Max => "max"@,
            AggKind::Min => "min"@,
            AggKind::Sum => "sum"@,
        }
    }

    /// The name under which the kind is shown: `count` for both kinds of
    /// count.
    pub fn name(&self) -> (name: String)
        ensures
            name@ == self.spec_name(),
    {
        match self {
            AggKind::Avg => String::from_str("avg"),
            AggKind::RowCount => String::from_str("count"),
            AggKind::Count => String::from_str("count"),
            AggKind::Max => String::from_str("max"),
            AggKind::Min => String::from_str("min"),
            AggKind::Sum => String::from_str("sum"),
        }
    }

    /// The kind that a function name in lower case stands for. A count
    /// without arguments counts rows.
    pub open spec fn spec_from_name(lowered: Seq<char>, no_args: bool) -> Option<AggKind> {
        if lowered == "avg"@ {
            Some(AggKind::Avg)
        } else if lowered == "count"@ {
            Some(
                if no_args {
                    AggKind::RowCount
                } else {
                    AggKind::Count
                },
            )
        } else if lowered == "max"@ {
            Some(AggKind::Max)
        } else if lowered == "min"@ {
            Some(AggKind::Min)
        } else if lowered == "sum"@ {
            Some(AggKind::Sum)
        } else {
            None
        }
    }

    /// The kind that a function name in lower case stands for.
    pub fn from_name(lowered: &str, no_args: bool) -> (kind: Option<AggKind>)
        ensures
            kind == AggKind::spec_from_name(lowered@, no_args),
    {
        let name = String::from_str(lowered);
        if name == String::from_str("avg") {
            Some(AggKind::Avg)
        } else if name == String::from_str("count") {
            if no_args {
                Some(AggKind::RowCount)
            } else {
                Some(AggKind::Count)
            }
        } else if name == String::from_str("max") {
            Some(AggKind::Max)
        } else if name == String::from_str("min") {
            Some(AggKind::Min)
        } else if name == String::from_str("sum") {
            Some(AggKind::Sum)
        } else {
            None
        }
    }
}

/// The operators of binary expressions.
#[derive(Clone, Copy, Debug, PartialEq, Eq, Structural)]
pub enum BinaryOperator {
    Plus,
    Minus,
    Multiply,
    Divide,
}

/// A constant of a statement.
#[derive(Clone, Copy, Debug, PartialEq, Eq, Structural)]
pub enum DataValue {
    Null,
    Bool(bool),
    Int32(i32),
    Int64(i64),
    /// The bit pattern of a 64-bit IEEE 754 number.
    Float64(u64),
}

impl DataValue {
    /// The type of the constant; a null has none.
    pub open spec fn spec_datatype(self) -> Option<DataType> {
        match self {
            DataValue::Null => None,
            DataValue::Bool(_) => Some(DataType { kind: DataTypeKind::Boolean, nullable: false }),
            DataValue::Int32(_) => Some(DataType { kind: DataTypeKind::Int, nullable: false }),
            DataValue::Int64(_) => Some(DataType { kind: DataTypeKind::BigInt, nullable: false }),
            DataValue::Float64(_) => Some(DataType { kind: DataTypeKind::Double, nullable: false }),
        }
    }

    /// The type of the constant; a null has none.
    pub fn datatype(&self) -> (datatype: Option<DataType>)
        ensures
            datatype == self.spec_datatype(),
    {
        match self {
            DataValue::Null => None,
            DataValue::Bool(_) => Some(DataType::new(DataTypeKind::Boolean, false)),
            DataValue::Int32(_) => Some(DataType::new(DataTypeKind::Int, false)),
            DataValue::Int64(_) => Some(DataType::new(DataTypeKind::BigInt, false)),
            DataValue::Float64(_) => Some(DataType::new(DataTypeKind::Double, false)),
        }
    }
}

/// A column of a table of the statement.
#[derive(Clone, Copy, Debug, PartialEq, Eq, Structural)]
pub struct ColumnRefId {
    pub table_id: TableRefId,
    pub column_id: ColumnId,
}

impl ColumnRefId {
    /// The column `column_id` of the table `table_id`.
    pub fn from_table(table_id: TableRefId, column_id: ColumnId) -> (id: ColumnRefId)
        ensures
            id == (ColumnRefId { table_id, column_id }),
    {
        ColumnRefId { table_id, column_id }
    }
}

/// A reference to a column, bound.
#[derive(Debug, PartialEq, Clone)]
pub struct BoundColumnRef {
    pub table_name: String,
    pub column_ref_id: ColumnRefId,
    pub is_primary_key: bool,
    pub desc: ColumnDesc,
}

/// A binary expression, bound.
#[derive(Debug, PartialEq)]
pub struct BoundBinaryOp {
    pub op: BinaryOperator,
    pub left_expr: Box<BoundExpr>,
    pub right_expr: Box<BoundExpr>,
    pub return_type: Option<DataType>,
}

/// A cast to a type, bound.
#[derive(Debug, PartialEq)]
pub struct BoundTypeCast {
    pub ty: DataTypeKind,
    pub expr: Box<BoundExpr>,
}

/// Represents an aggregation function
#[derive(Debug, PartialEq)]
pub struct BoundAggCall {
    pub kind: AggKind,
    pub args: Vec<BoundExpr>,
    pub return_type: DataType,
}

/// A bound expression.
#[derive(Debug, PartialEq)]
pub enum BoundExpr {
    Constant(DataValue),
    ColumnRef(BoundColumnRef),
    BinaryOp(BoundBinaryOp),
    TypeCast(BoundTypeCast),
    AggCall(BoundAggCall),
}

/// A bound expression as the contracts see it.
pub enum ExprView {
    Constant(DataValue),
    ColumnRef(BoundColumnRef),
    BinaryOp { op: BinaryOperator, left: Box<ExprView>, right: Box<ExprView>, return_type: Option<DataType> },
    TypeCast { ty: DataTypeKind, expr: Box<ExprView> },
    AggCall { kind: AggKind, args: Seq<ExprView>, return_type: DataType },
}

impl ExprView {
    /// The type of the values of the expression, where it is known.
    pub open spec fn return_type(self) -> Option<DataType> {
        match self {
            ExprView::Constant(value) => value.spec_datatype(),
            ExprView::ColumnRef(column) => Some(column.desc.datatype),
            ExprView::BinaryOp { return_type, .. } => return_type,
            ExprView::TypeCast { ty, .. } => Some(DataType { kind: ty, nullable: false }),
            ExprView::AggCall { return_type, .. } => Some(return_type),
        }
    }
}

impl BoundExpr {
    /// The expression as the contracts see it.
    pub open spec fn view(&self) -> ExprView
        decreases self,
    {
        match self {
            BoundExpr::Constant(value) => ExprView::Constant(*value),
            BoundExpr::ColumnRef(column) => ExprView::ColumnRef(*column),
            BoundExpr::BinaryOp(op) => ExprView::BinaryOp {
                op: op.op,
                left: Box::new(op.left_expr.view()),
                right: Box::new(op.right_expr.view()),
                return_type: op.return_type,
            },
            BoundExpr::TypeCast(cast) => ExprView::TypeCast {
                ty: cast.ty,
                expr: Box::new(cast.expr.view()),
            },
            BoundExpr::AggCall(call) => ExprView::AggCall {
                kind: call.kind,
                args: Seq::new(
                    call.args@.len(),
                    |i: int|
                        if 0 <= i < call.args@.len() {
                            call.args@[i].view()
                        } else {
                            ExprView::Constant(DataValue::Null)
                        },
                ),
                return_type: call.return_type,
            },
        }
    }
}

/// The expressions of a list as the contracts see them.
pub open spec fn exprs_view(exprs: Seq<BoundExpr>) -> Seq<ExprView> {
    Seq::new(exprs.len(), |i: int| exprs[i].view())
}

/// The arguments of a bound aggregate call are the views of its arguments.
pub proof fn lemma_agg_call_view(call: BoundAggCall)
    ensures
        BoundExpr::AggCall(call).view() == (ExprView::AggCall {
            kind: call.kind,
            args: exprs_view(call.args@),
            return_type: call.return_type,
        }),
{
    assert(BoundExpr::AggCall(call).view()->AggCall_args =~= exprs_view(call.args@));
}

impl BoundExpr {
    /// The type of the values of the expression, where it is known.
    pub fn return_type(&self) -> (datatype: Option<DataType>)
        ensures
            datatype == self.view().return_type(),
    {
        match self {
            BoundExpr::Constant(value) => value.datatype(),
            BoundExpr::ColumnRef(column) => Some(column.desc.datatype),
            BoundExpr::BinaryOp(op) => op.return_type,
            BoundExpr::TypeCast(cast) => Some(DataType::new(cast.ty, false)),
            BoundExpr::AggCall(call) => Some(call.return_type),
        }
    }

    /// A copy of the expression.
    pub fn duplicate(&self) -> (copy: BoundExpr)
        ensures
            copy.view() == self.view(),
        decreases self,
    {
        match self {
            BoundExpr::Constant(value) => BoundExpr::Constant(*value),
            BoundExpr::ColumnRef(column) => BoundExpr::ColumnRef(
                BoundColumnRef {
                    table_name: column.table_name.clone(),
                    column_ref_id: column.column_ref_id,
                    is_primary_key: column.is_primary_key,
                    desc: ColumnDesc {
                        datatype: column.desc.datatype,
                        name: column.desc.name.clone(),
                        is_primary: column.desc.is_primary,
                    },
                },
            ),
            BoundExpr::BinaryOp(op) => BoundExpr::BinaryOp(
                BoundBinaryOp {
                    op: op.op,
                    left_expr: Box::new(op.left_expr.duplicate()),
                    right_expr: Box::new(op.right_expr.duplicate()),
                    return_type: op.return_type,
                },
            ),
            BoundExpr::TypeCast(cast) => BoundExpr::TypeCast(
                BoundTypeCast { ty: cast.ty, expr: Box::new(cast.expr.duplicate()) },
            ),
            BoundExpr::AggCall(call) => {
                let mut args: Vec<BoundExpr> = Vec::new();
                let mut i: usize = 0;
                while i < call.args.len()
                    invariant
                        i <= call.args@.len(),
                        args@.len() == i,
                        *self == BoundExpr::AggCall(*call),
                        forall|j: int|
                            0 <= j < i ==> (#[trigger] args@[j]).view() == call.args@[j].view(),
                    decreases call.args@.len() - i,
                {
                    proof {
                        assert(decreases_to!(*self => self->AggCall_0));
                        assert(decreases_to!(self->AggCall_0 => (self->AggCall_0).args));
                        assert(decreases_to!((self->AggCall_0).args => (self->AggCall_0).args@));
                        assert(decreases_to!((self->AggCall_0).args@ => (self->AggCall_0).args@[i as int]));
                    }
                    let arg = call.args[i].duplicate();
                    args.push(arg);
                    i += 1;
                }
                let copy = BoundExpr::AggCall(
                    BoundAggCall { kind: call.kind, args, return_type: call.return_type },
                );
                assert(copy.view()->AggCall_args =~= self.view()->AggCall_args);
                copy
            },
        }
    }
}

/// A copy of a list of expressions.
pub fn duplicate_exprs(exprs: &Vec<BoundExpr>) -> (copy: Vec<BoundExpr>)
    ensures
        exprs_view(copy@) == exprs_view(exprs@),
{
    let mut copy: Vec<BoundExpr> = Vec::new();
    let mut i: usize = 0;
    while i < exprs.len()
        invariant
            i <= exprs@.len(),
            copy@.len() == i,
            forall|j: int| 0 <= j < i ==> (#[trigger] copy@[j]).view() == exprs@[j].view(),
        decreases exprs@.len() - i,
    {
        copy.push(exprs[i].duplicate());
        i += 1;
    }
    assert(exprs_view(copy@) =~= exprs_view(exprs@));
    copy
}

/// An expression as the parser hands it over.
#[derive(Debug, PartialEq, Clone)]
pub enum Expr {
    /// A constant.
    Value(DataValue),
    /// A column of a table: `table.column`.
    CompoundIdentifier { table: String, column: String },
}

/// What stands in the place of an argument of a call.
#[derive(Debug, PartialEq, Clone)]
pub enum FunctionArgExpr {
    Expr(Expr),
    /// `table.*`
    QualifiedWildcard(String),
    /// `*`
    Wildcard,
}

/// An argument of a call, with or without a name.
#[derive(Debug, PartialEq, Clone)]
pub enum FunctionArg {
    Named { name: String, arg: FunctionArgExpr },
    Unnamed(FunctionArgExpr),
}

/// A function call as the parser hands it over.
#[derive(Debug, PartialEq, Clone)]
pub struct Function {
    pub name: String,
    pub args: Vec<FunctionArg>,
}

/// A table of the catalog.
#[derive(Debug, PartialEq, Clone)]
pub struct TableCatalog {
    pub id: TableRefId,
    pub name: String,
    pub columns: Vec<ColumnCatalog>,
}

/// Why an expression cannot be bound.
#[derive(Clone, Copy, Debug, PartialEq, Eq, Structural)]
pub enum BindError {
    /// The statement has no table of that name.
    InvalidTable,
    /// The table has no column of that name.
    InvalidColumn,
}

/// What stands in the place of an argument.
pub open spec fn arg_expr(arg: FunctionArg) -> FunctionArgExpr {
    match arg {
        FunctionArg::Named { arg, .. } => arg,
        FunctionArg::Unnamed(arg) => arg,
    }
}

/// The first table from `from` on with the given name.
pub open spec fn first_table(tables: Seq<TableCatalog>, name: Seq<char>, from: int) -> Option<int>
    decreases tables.len() - from,
{
    if from < 0 || from >= tables.len() {
        None
    } else if tables[from].name@ == name {
        Some(from)
    } else {
        first_table(tables, name, from + 1)
    }
}

/// The first column from `from` on with the given name.
pub open spec fn first_column(columns: Seq<ColumnCatalog>, name: Seq<char>, from: int) -> Option<
    int,
>
    decreases columns.len() - from,
{
    if from < 0 || from >= columns.len() {
        None
    } else if columns[from].desc.name@ == name {
        Some(from)
    } else {
        first_column(columns, name, from + 1)
    }
}

/// The first column from `from` on with the given identifier.
pub open spec fn first_column_with_id(columns: Seq<ColumnCatalog>, id: ColumnId, from: int) -> Option<
    int,
>
    decreases columns.len() - from,
{
    if from < 0 || from >= columns.len() {
        None
    } else if columns[from].id == id {
        Some(from)
    } else {
        first_column_with_id(columns, id, from + 1)
    }
}

/// The first table from `from` on that has a column with identifier 0,
/// and where that column stands in the table.
pub open spec fn first_countable(tables: Seq<TableCatalog>, from: int) -> Option<(int, int)>
    decreases tables.len() - from,
{
    if from < 0 || from >= tables.len() {
        None
    } else {
        match first_column_with_id(tables[from].columns@, 0, 0) {
            Some(c) => Some((from, c)),
            None => first_countable(tables, from + 1),
        }
    }
}

/// The reference to a column of a table.
pub open spec fn column_ref(table: TableCatalog, column: ColumnCatalog) -> BoundColumnRef {
    BoundColumnRef {
        table_name: table.name,
        column_ref_id: ColumnRefId { table_id: table.id, column_id: column.id },
        is_primary_key: column.desc.is_primary,
        desc: column.desc,
    }
}

/// What an expression is bound to: a constant to itself, `table.column` to
/// the column of that name in the first table of that name.
pub open spec fn bind_expr_spec(tables: Seq<TableCatalog>, expr: Expr) -> Result<
    ExprView,
    BindError,
> {
    match expr {
        Expr::Value(value) => Ok(ExprView::Constant(value)),
        Expr::CompoundIdentifier { table, column } => match first_table(tables, table@, 0) {
            None => Err(BindError::InvalidTable),
            Some(t) => match first_column(tables[t].columns@, column@, 0) {
                None => Err(BindError::InvalidColumn),
                Some(c) => Ok(ExprView::ColumnRef(column_ref(tables[t], tables[t].columns@[c]))),
            },
        },
    }
}

/// How the arguments of a call are bound.
pub enum BoundArgs {
    /// The arguments, bound; none where the call has a `*`.
    Bound(Seq<ExprView>),
    /// An argument cannot be bound.
    Failed(BindError),
    /// An argument is of a form that aggregates do not take.
    Unsupported,
}

/// The arguments of a call from argument `from` on, behind the arguments
/// `bound` that are bound already. Expressions are bound in order, and the
/// first that cannot be bound ends the binding. A `*` means every row:
/// the arguments before it are dropped and those behind it are not looked
/// at.
pub open spec fn bind_args_spec(
    tables: Seq<TableCatalog>,
    args: Seq<FunctionArg>,
    from: int,
    bound: Seq<ExprView>,
) -> BoundArgs
    decreases args.len() - from,
{
    if from < 0 || from >= args.len() {
        BoundArgs::Bound(bound)
    } else {
        match arg_expr(args[from]) {
            FunctionArgExpr::Expr(expr) => match bind_expr_spec(tables, expr) {
                Ok(view) => bind_args_spec(tables, args, from + 1, bound.push(view)),
                Err(e) => BoundArgs::Failed(e),
            },
            FunctionArgExpr::Wildcard => BoundArgs::Bound(Seq::empty()),
            FunctionArgExpr::QualifiedWildcard(_) => BoundArgs::Unsupported,
        }
    }
}

/// What a call is bound to.
pub enum BoundCall {
    /// The bound call, and the column that the binder takes note of.
    Bound { expr: ExprView, recorded: Option<ColumnRefId> },
    /// An argument cannot be bound.
    Failed(BindError),
    /// The call is none that the binder knows how to bind.
    Unsupported,
}

/// The type of counts.
pub open spec fn count_type() -> DataType {
    DataType { kind: DataTypeKind::Int, nullable: false }
}

/// What an aggregate call of the given lowered name is bound to, given its
/// bound arguments.
///
/// - `count` without arguments counts rows; it is given column 0 of the
///   first table that has one as its argument, and the binder takes note
///   of that column. `count` with arguments counts them. Both return
///   integers.
/// - `max`, `min` and `sum` return what their first argument returns.
/// - `avg` becomes the sum of the arguments divided by their count, the
///   count cast to the kind of the sum; the quotient is a double.
/// - `max`, `min`, `sum` and `avg` need a first argument of a known type;
///   other names are not supported.
pub open spec fn bind_call_spec(
    tables: Seq<TableCatalog>,
    lowered: Seq<char>,
    args: Seq<ExprView>,
) -> BoundCall {
    match AggKind::spec_from_name(lowered, args.len() == 0) {
        None => BoundCall::Unsupported,
        Some(AggKind::RowCount) => match first_countable(tables, 0) {
            Some((t, c)) => {
                let column = column_ref(tables[t], tables[t].columns@[c]);
                BoundCall::Bound {
                    expr: ExprView::AggCall {
                        kind: AggKind::RowCount,
                        args: seq![ExprView::ColumnRef(column)],
                        return_type: count_type(),
                    },
                    recorded: Some(column.column_ref_id),
                }
            },
            None => BoundCall::Bound {
                expr: ExprView::AggCall {
                    kind: AggKind::RowCount,
                    args: Seq::empty(),
                    return_type: count_type(),
                },
                recorded: None,
            },
        },
        Some(AggKind::Count) => BoundCall::Bound {
            expr: ExprView::AggCall { kind: AggKind::Count, args, return_type: count_type() },
            recorded: None,
        },
        Some(kind) => if args.len() == 0 || args[0].return_type() is None {
            BoundCall::Unsupported
        } else if kind == AggKind::Avg {
            BoundCall::Bound {
                expr: ExprView::BinaryOp {
                    op: BinaryOperator::Divide,
                    left: Box::new(
                        ExprView::AggCall {
                            kind: AggKind::Sum,
                            args,
                            return_type: args[0].return_type()->0,
                        },
                    ),
                    right: Box::new(
                        ExprView::TypeCast {
                            ty: args[0].return_type()->0.kind,
                            expr: Box::new(
                                ExprView::AggCall {
                                    kind: AggKind::Count,
                                    args,
                                    return_type: count_type(),
                                },
                            ),
                        },
                    ),
                    return_type: Some(DataType { kind: DataTypeKind::Double, nullable: false }),
                },
                recorded: None,
            }
        } else {
            BoundCall::Bound {
                expr: ExprView::AggCall { kind, args, return_type: args[0].return_type()->0 },
                recorded: None,
            }
        },
    }
}

/// What a call is bound to: its arguments are bound first, and then the
/// call by its name in lower case.
pub open spec fn bind_function_spec(
    tables: Seq<TableCatalog>,
    lowered: Seq<char>,
    args: Seq<FunctionArg>,
) -> BoundCall {
    match bind_args_spec(tables, args, 0, Seq::empty()) {
        BoundArgs::Bound(bound) => bind_call_spec(tables, lowered, bound),
        BoundArgs::Failed(e) => BoundCall::Failed(e),
        BoundArgs::Unsupported => BoundCall::Unsupported,
    }
}

/// The columns that a binder has taken note of, after one more: each
/// column is noted once.
pub open spec fn record_spec(referenced: Seq<ColumnRefId>, id: Option<ColumnRefId>) -> Seq<
    ColumnRefId,
> {
    match id {
        Some(id) => if referenced.contains(id) {
            referenced
        } else {
            referenced.push(id)
        },
        None => referenced,
    }
}

/// A name in lower case, as `str::to_lowercase` of the standard library
/// gives it.
pub uninterp spec fn lowercased(name: Seq<char>) -> Seq<char>;

/// Calls `str::to_lowercase` of the standard library, which maps each
/// character of the string to its lower case by the rules of Unicode. The
/// result depends on the string alone; the contract gives it the name
/// [`lowercased`] and says nothing more of it.
#[verifier::external_body]
fn lowercase(name: &str) -> (lowered: String)
    ensures
        lowered@ == lowercased(name@),
{
    name.to_lowercase()
}

/// How the arguments of a call were bound.
enum Arguments {
    Bound(Vec<BoundExpr>),
    Failed(BindError),
    Unsupported,
}

/// The binder of a statement.
#[derive(Debug)]
pub struct Binder {
    /// The tables of the statement, in the order in which it names them.
    tables: Vec<TableCatalog>,
    /// The columns that the statement refers to without naming them.
    referenced: Vec<ColumnRefId>,
}

impl Binder {
    /// The tables of the statement.
    pub closed spec fn tables(&self) -> Seq<TableCatalog> {
        self.tables@
    }

    /// The columns that the binder has taken note of.
    pub closed spec fn referenced(&self) -> Seq<ColumnRefId> {
        self.referenced@
    }

    /// A binder for a statement over the given tables.
    pub fn new(tables: Vec<TableCatalog>) -> (binder: Binder)
        ensures
            binder.tables() == tables@,
            binder.referenced() == Seq::<ColumnRefId>::empty(),
    {
        Binder { tables, referenced: Vec::new() }
    }

    /// The columns that the binder has taken note of.
    pub fn referenced_columns(&self) -> (columns: &Vec<ColumnRefId>)
        ensures
            columns@ == self.referenced(),
    {
        &self.referenced
    }

    fn find_table(&self, name: &String) -> (found: Option<usize>)
        ensures
            match found {
                Some(t) => t < self.tables@.len() && first_table(self.tables@, name@, 0) == Some(
                    t as int,
                ),
                None => first_table(self.tables@, name@, 0) is None,
            },
    {
        let mut i: usize = 0;
        while i < self.tables.len()
            invariant
                i <= self.tables@.len(),
                first_table(self.tables@, name@, 0) == first_table(self.tables@, name@, i as int),
            decreases self.tables@.len() - i,
        {
            if self.tables[i].name == *name {
                return Some(i);
            }
            i += 1;
        }
        None
    }

    fn reference(table: &TableCatalog, column: &ColumnCatalog) -> (bound: BoundColumnRef)
        ensures
            bound == column_ref(*table, *column),
    {
        BoundColumnRef {
            table_name: table.name.clone(),
            column_ref_id: ColumnRefId::from_table(table.id, column.id),
            is_primary_key: column.desc.is_primary,
            desc: ColumnDesc {
                datatype: column.desc.datatype,
                name: column.desc.name.clone(),
                is_primary: column.desc.is_primary,
            },
        }
    }

    /// Binds an expression: see [`bind_expr_spec`].
    pub fn bind_expr(&self, expr: &Expr) -> (result: Result<BoundExpr, BindError>)
        ensures
            match result {
                Ok(bound) => bind_expr_spec(self.tables(), *expr) == Ok::<ExprView, BindError>(
                    bound.view(),
                ),
                Err(e) => bind_expr_spec(self.tables(), *expr) == Err::<ExprView, BindError>(e),
            },
    {
        match expr {
            Expr::Value(value) => Ok(BoundExpr::Constant(*value)),
            Expr::CompoundIdentifier { table, column } => {
                let t = match self.find_table(table) {
                    Some(t) => t,
                    None => {
                        return Err(BindError::InvalidTable);
                    },
                };
                let columns = &self.tables[t].columns;
                let mut c: usize = 0;
                while c < columns.len()
                    invariant
                        c <= columns@.len(),
                        t < self.tables@.len(),
                        *columns == self.tables@[t as int].columns,
                        *expr == (Expr::CompoundIdentifier { table: *table, column: *column }),
                        first_table(self.tables@, table@, 0) == Some(t as int),
                        first_column(columns@, column@, 0) == first_column(
                            columns@,
                            column@,
                            c as int,
                        ),
                    decreases columns@.len() - c,
                {
                    if columns[c].desc.name == *column {
                        return Ok(
                            BoundExpr::ColumnRef(Binder::reference(&self.tables[t], &columns[c])),
                        );
                    }
                    c += 1;
                }
                Err(BindError::InvalidColumn)
            },
        }
    }

    /// Binds the arguments of a call: see [`bind_args_spec`].
    fn bind_args(&self, args: &Vec<FunctionArg>) -> (result: Arguments)
        ensures
            match result {
                Arguments::Bound(bound) => bind_args_spec(self.tables(), args@, 0, Seq::empty())
                    == BoundArgs::Bound(exprs_view(bound@)),
                Arguments::Failed(e) => bind_args_spec(self.tables(), args@, 0, Seq::empty())
                    == BoundArgs::Failed(e),
                Arguments::Unsupported => bind_args_spec(self.tables(), args@, 0, Seq::empty())
                    == BoundArgs::Unsupported,
            },
    {
        let mut bound: Vec<BoundExpr> = Vec::new();
        let mut i: usize = 0;
        assert(exprs_view(bound@) =~= Seq::<ExprView>::empty());
        while i < args.len()
            invariant
                i <= args@.len(),
                bind_args_spec(self.tables(), args@, 0, Seq::empty()) == bind_args_spec(
                    self.tables(),
                    args@,
                    i as int,
                    exprs_view(bound@),
                ),
            decreases args@.len() - i,
        {
            let arg = match &args[i] {
                FunctionArg::Named { arg, .. } => arg,
                FunctionArg::Unnamed(arg) => arg,
            };
            match arg {
                FunctionArgExpr::Expr(expr) => {
                    let ghost before = exprs_view(bound@);
                    match self.bind_expr(expr) {
                        Ok(view) => {
                            let ghost added = view.view();
                            bound.push(view);
                            assert(exprs_view(bound@) =~= before.push(added));
                        },
                        Err(e) => {
                            return Arguments::Failed(e);
                        },
                    }
                },
                FunctionArgExpr::Wildcard => {
                    // No argument in row count
                    let none: Vec<BoundExpr> = Vec::new();
                    assert(exprs_view(none@) =~= Seq::<ExprView>::empty());
                    return Arguments::Bound(none);
                },
                FunctionArgExpr::QualifiedWildcard(_) => {
                    return Arguments::Unsupported;
                },
            }
            i += 1;
        }
        Arguments::Bound(bound)
    }

    /// Column 0 of the first table that has one.
    fn first_column_zero(&self) -> (found: Option<(usize, usize)>)
        ensures
            match found {
                Some((t, c)) => t < self.tables@.len() && c < self.tables@[t as int].columns@.len()
                    && first_countable(self.tables@, 0) == Some((t as int, c as int)),
                None => first_countable(self.tables@, 0) is None,
            },
    {
        let mut t: usize = 0;
        while t < self.tables.len()
            invariant
                t <= self.tables@.len(),
                first_countable(self.tables@, 0) == first_countable(self.tables@, t as int),
            decreases self.tables@.len() - t,
        {
            let columns = &self.tables[t].columns;
            let mut c: usize = 0;
            while c < columns.len()
                invariant
                    c <= columns@.len(),
                    t < self.tables@.len(),
                    columns@ == self.tables@[t as int].columns@,
                    first_countable(self.tables@, 0) == first_countable(self.tables@, t as int),
                    first_column_with_id(columns@, 0, 0) == first_column_with_id(
                        columns@,
                        0,
                        c as int,
                    ),
                decreases columns@.len() - c,
            {
                if columns[c].id == 0 {
                    return Some((t, c));
                }
                c += 1;
            }
            t += 1;
        }
        None
    }

    /// Takes note of a column, once.
    fn record(&mut self, id: ColumnRefId)
        ensures
            final(self).tables() == old(self).tables(),
            final(self).referenced() == record_spec(old(self).referenced(), Some(id)),
    {
        let mut i: usize = 0;
        while i < self.referenced.len()
            invariant
                i <= self.referenced@.len(),
                *self == *old(self),
                forall|j: int| 0 <= j < i ==> self.referenced@[j] != id,
            decreases self.referenced@.len() - i,
        {
            if self.referenced[i] == id {
                return ;
            }
            i += 1;
        }
        self.referenced.push(id);
    }

    /// Whether the binder knows how to bind a call of the given name, in
    /// lower case, with the given bound arguments.
    pub fn supports_call(&self, lowered: &str, args: &Vec<BoundExpr>) -> (supported: bool)
        ensures
            supported == !(bind_call_spec(self.tables(), lowered@, exprs_view(args@))
                is Unsupported),
    {
        match AggKind::from_name(lowered, args.len() == 0) {
            None => false,
            Some(AggKind::RowCount) => true,
            Some(AggKind::Count) => true,
            Some(_) => {
                assert(args@.len() > 0 ==> exprs_view(args@)[0] == args@[0].view());
                args.len() > 0 && args[0].return_type().is_some()
            },
        }
    }

    /// Whether the binder knows how to bind the call.
    pub fn supports(&self, func: &Function) -> (supported: bool)
        ensures
            supported == !(bind_function_spec(self.tables(), lowercased(func.name@), func.args@)
                is Unsupported),
    {
        match self.bind_args(&func.args) {
            Arguments::Unsupported => false,
            Arguments::Failed(_) => true,
            Arguments::Bound(args) => {
                let lowered = lowercase(func.name.as_str());
                self.supports_call(lowered.as_str(), &args)
            },
        }
    }

    /// Binds an aggregate call. See [`bind_function_spec`] for what comes
    /// out. The call has to be one that the binder knows how to bind: see
    /// [`Binder::supports`] and [`Binder::try_bind_function`].
    pub fn bind_function(&mut self, func: &Function) -> (result: Result<BoundExpr, BindError>)
        requires
            !(bind_function_spec(old(self).tables(), lowercased(func.name@), func.args@)
                is Unsupported),
        ensures
            final(self).tables() == old(self).tables(),
            match bind_function_spec(old(self).tables(), lowercased(func.name@), func.args@) {
                BoundCall::Bound { expr, recorded } => {
                    &&& result matches Ok(bound)
                    &&& bound.view() == expr
                    &&& final(self).referenced() == record_spec(old(self).referenced(), recorded)
                },
                BoundCall::Failed(e) => {
                    &&& result matches Err(x)
                    &&& x == e
                    &&& final(self).referenced() == old(self).referenced()
                },
                BoundCall::Unsupported => false,
            },
    {
        let args = match self.bind_args(&func.args) {
            Arguments::Bound(args) => args,
            Arguments::Failed(e) => {
                return Err(e);
            },
            Arguments::Unsupported => unreached(),
        };
        let lowered = lowercase(func.name.as_str());
        self.bind_call(lowered.as_str(), args)
    }

    /// Binds an aggregate call of the given name, in lower case, to its
    /// bound arguments. See [`bind_call_spec`] for what comes out. The
    /// call has to be one that the binder knows how to bind: see
    /// [`Binder::supports_call`].
    pub fn bind_call(&mut self, lowered: &str, args: Vec<BoundExpr>) -> (result: Result<
        BoundExpr,
        BindError,
    >)
        requires
            !(bind_call_spec(old(self).tables(), lowered@, exprs_view(args@)) is Unsupported),
        ensures
            final(self).tables() == old(self).tables(),
            match bind_call_spec(old(self).tables(), lowered@, exprs_view(args@)) {
                BoundCall::Bound { expr, recorded } => {
                    &&& result matches Ok(bound)
                    &&& bound.view() == expr
                    &&& final(self).referenced() == record_spec(old(self).referenced(), recorded)
                },
                BoundCall::Failed(e) => {
                    &&& result matches Err(x)
                    &&& x == e
                    &&& final(self).referenced() == old(self).referenced()
                },
                BoundCall::Unsupported => false,
            },
    {
        let mut args = args;
        let ghost bound = exprs_view(args@);
        let kind = match AggKind::from_name(lowered, args.len() == 0) {
            Some(kind) => kind,
            None => unreached(),
        };
        match kind {
            AggKind::RowCount => {
                match self.first_column_zero() {
                    Some((t, c)) => {
                        let column = Binder::reference(&self.tables[t], &self.tables[t].columns[c]);
                        let id = column.column_ref_id;
                        self.record(id);
                        args.push(BoundExpr::ColumnRef(column));
                        assert(exprs_view(args@) =~= seq![ExprView::ColumnRef(column)]);
                    },
                    None => {
                        assert(exprs_view(args@) =~= Seq::<ExprView>::empty());
                    },
                }
                let call = BoundAggCall {
                    kind: AggKind::RowCount,
                    args,
                    return_type: DataType::new(DataTypeKind::Int, false),
                };
                proof {
                    lemma_agg_call_view(call);
                }
                Ok(BoundExpr::AggCall(call))
            },
            AggKind::Count => {
                let call = BoundAggCall {
                    kind: AggKind::Count,
                    args,
                    return_type: DataType::new(DataTypeKind::Int, false),
                };
                proof {
                    lemma_agg_call_view(call);
                }
                Ok(BoundExpr::AggCall(call))
            },
            AggKind::Avg => {
                // Rewrite `avg` into `sum / count`
                assert(bound[0] == args@[0].view());
                let first = match args[0].return_type() {
                    Some(first) => first,
                    None => unreached(),
                };
                let sum = BoundAggCall {
                    kind: AggKind::Sum,
                    args: duplicate_exprs(&args),
                    return_type: first,
                };
                let count = BoundAggCall {
                    kind: AggKind::Count,
                    args,
                    return_type: DataType::new(DataTypeKind::Int, false),
                };
                proof {
                    lemma_agg_call_view(sum);
                    lemma_agg_call_view(count);
                }
                let left = BoundExpr::AggCall(sum);
                let counted = BoundExpr::AggCall(count);
                let ghost counted_view = counted.view();
                let right = BoundExpr::TypeCast(
                    BoundTypeCast { ty: first.kind(), expr: Box::new(counted) },
                );
                assert(right.view() == (ExprView::TypeCast {
                    ty: first.kind,
                    expr: Box::new(counted_view),
                }));
                let ghost left_view = left.view();
                let ghost right_view = right.view();
                let quotient = BoundExpr::BinaryOp(
                    BoundBinaryOp {
                        op: BinaryOperator::Divide,
                        left_expr: Box::new(left),
                        right_expr: Box::new(right),
                        return_type: Some(DataType::new(DataTypeKind::Double, false)),
                    },
                );
                assert(quotient.view() == (ExprView::BinaryOp {
                    op: BinaryOperator::Divide,
                    left: Box::new(left_view),
                    right: Box::new(right_view),
                    return_type: Some(DataType { kind: DataTypeKind::Double, nullable: false }),
                }));
                Ok(quotient)
            },
            _ => {
                assert(bound[0] == args@[0].view());
                let first = match args[0].return_type() {
                    Some(first) => first,
                    None => unreached(),
                };
                let call = BoundAggCall { kind, args, return_type: first };
                proof {
                    lemma_agg_call_view(call);
                }
                Ok(BoundExpr::AggCall(call))
            },
        }
    }

    /// Binds an aggregate call if the binder knows how to: `None`, and
    /// nothing changed, for a call that it does not support.
    pub fn try_bind_function(&mut self, func: &Function) -> (result: Option<
        Result<BoundExpr, BindError>,
    >)
        ensures
            final(self).tables() == old(self).tables(),
            match bind_function_spec(old(self).tables(), lowercased(func.name@), func.args@) {
                BoundCall::Bound { expr, recorded } => {
                    &&& result matches Some(Ok(bound))
                    &&& bound.view() == expr
                    &&& final(self).referenced() == record_spec(old(self).referenced(), recorded)
                },
                BoundCall::Failed(e) => {
                    &&& result matches Some(Err(x))
                    &&& x == e
                    &&& final(self).referenced() == old(self).referenced()
                },
                BoundCall::Unsupported => {
                    &&& result is None
                    &&& final(self).referenced() == old(self).referenced()
                },
            },
    {
        if self.supports(func) {
            Some(self.bind_function(func))
        } else {
            None
        }
    }
}

} // verus!
