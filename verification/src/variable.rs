//! Variables by expression: an expression names a global or static variable or a
//! part of one, and debug information tells where that is in memory and what its
//! type is.
use vstd::prelude::*;
use crate::dwarf::{DebugSections, SectionData};
use crate::layout::{sound, type_label, type_size, Leaf, TypeDesc};
use crate::likeness::{alike, lemma_alike_sizes, lemma_alike_walk};
use crate::member_path::{
    expression, follow, is_plain_name, law_expressions_are_read_back, law_paths_stay_inside,
    parse_expression, path_text, plain_steps, step_views, walk, PathError, Step,
};
use crate::number::{dec, dec_text, hex, hex_text};
use crate::render::{
    bare_text, format_value, leaf_encoding, leaf_value, tree_lines, write_tree, FmtOptions,
};
use crate::symbol::{
    find_symbol, site_of, supported, value_of, writes, writes_any, Encoding, FloatTexts, SymbolError,
    UnsupportedValue, Value, VariableSite,
};
use crate::text::views;
use crate::type_info::{is_type, law_entries_fix_types, read_type};

verus! {

/// A variable, or a part of one, that is ready to be read.
#[derive(Debug)]
pub struct PreparedSymbol {
    /// The address of the variable.
    pub address: u64,
    /// The size of the variable.
    pub size: usize,
    /// Where the part starts in the variable; zero for the variable as a whole.
    pub offset: usize,
    pub kind: TypeDesc,
}

impl PreparedSymbol {
    /// Whether the part lies in the variable.
    pub open spec fn fits(self) -> bool {
        sound(self.kind) && self.offset + type_size(self.kind) <= self.size
    }

    /// Whether there is a single value, which a plot can show.
    pub fn plottable(&self) -> (r: bool)
        ensures
            r == (self.kind is Plain),
    {
        match self.kind {
            TypeDesc::Plain(_) => true,
            _ => false,
        }
    }

    /// The address of the part.
    pub fn field_address(&self) -> (r: u64)
        ensures
            r == self.address.wrapping_add(self.offset as u64),
    {
        self.address.wrapping_add(self.offset as u64)
    }

    /// The bytes that the part takes.
    pub fn field_size(&self) -> (r: usize)
        requires
            self.fits(),
        ensures
            r == type_size(self.kind),
    {
        self.kind.size()
    }
}

/// Why an expression cannot be read. `T` is the form in which text is held.
#[derive(Debug)]
pub enum PrepareError<T> {
    /// It is no expression.
    Malformed,
    /// The variable of that name cannot be used.
    Symbol(T, SymbolError<T>),
    /// The variable has no such part.
    Path(PathError<T>),
    /// The type of the part is not read.
    Opaque(T),
    /// The part is a bit field.
    BitField,
}

impl View for PrepareError<String> {
    type V = PrepareError<Seq<char>>;

    open spec fn view(&self) -> PrepareError<Seq<char>> {
        match *self {
            PrepareError::Malformed => PrepareError::Malformed,
            PrepareError::Symbol(n, e) => PrepareError::Symbol(n@, e@),
            PrepareError::Path(e) => PrepareError::Path(e@),
            PrepareError::Opaque(t) => PrepareError::Opaque(t@),
            PrepareError::BitField => PrepareError::BitField,
        }
    }
}

impl PrepareError<Seq<char>> {
    /// The wording of each refusal of the expression `expr`.
    pub open spec fn text(self, expr: Seq<char>) -> Seq<char> {
        match self {
            PrepareError::Malformed => "表达式写法不对："@ + expr
                + "（应如 theta_ref、s.member 或 buf[0].x）"@,
            PrepareError::Symbol(n, e) => e.text(n),
            PrepareError::Path(e) => e.text(),
            PrepareError::Opaque(t) => "解析符号 "@ + expr + " 的类型失败: "@ + t,
            PrepareError::BitField => "符号 "@ + expr + " 是位域，位域暂不支持"@,
        }
    }
}

fn joined(a: &str, b: &str, c: &str) -> (r: String)
    ensures
        r@ == a@ + b@ + c@,
{
    let mut s: String = String::from_str(a);
    s.append(b);
    s.append(c);
    s
}

impl PrepareError<String> {
    /// The wording of this refusal of the expression `expr`.
    pub fn message(&self, expr: &str) -> (r: String)
        ensures
            r@ == self@.text(expr@),
    {
        match self {
            PrepareError::Malformed => joined(
                "表达式写法不对：",
                expr,
                "（应如 theta_ref、s.member 或 buf[0].x）",
            ),
            PrepareError::Symbol(n, e) => e.message(n.as_str()),
            PrepareError::Path(e) => e.message(),
            PrepareError::Opaque(t) => {
                let mut s: String = joined("解析符号 ", expr, " 的类型失败: ");
                s.append(t.as_str());
                s
            },
            PrepareError::BitField => joined("符号 ", expr, " 是位域，位域暂不支持"),
        }
    }
}

/// The view of an outcome.
pub open spec fn outcome_view(r: Result<PreparedSymbol, PrepareError<String>>) -> Result<
    PreparedSymbol,
    PrepareError<Seq<char>>,
> {
    match r {
        Ok(p) => Ok(p),
        Err(e) => Err(e@),
    }
}

/// What the steps lead to in a variable of type `t`.
pub open spec fn part_of(address: u64, t: TypeDesc, steps: Seq<Step<Seq<char>>>) -> Result<
    PreparedSymbol,
    PrepareError<Seq<char>>,
> {
    match walk(t, steps) {
        Err(e) => Err(PrepareError::Path(e)),
        Ok((offset, kind)) => match kind {
            TypeDesc::Plain(Leaf::Opaque(why)) => Err(PrepareError::Opaque(why@)),
            TypeDesc::Plain(Leaf::BitField) => Err(PrepareError::BitField),
            _ => Ok(
                PreparedSymbol {
                    address,
                    size: type_size(t) as usize,
                    offset: offset as usize,
                    kind,
                },
            ),
        },
    }
}

/// Whether `r` is what the steps lead to in a variable of type `t`.
pub open spec fn is_part(
    address: u64,
    t: TypeDesc,
    steps: Seq<Step<Seq<char>>>,
    r: Result<PreparedSymbol, PrepareError<Seq<char>>>,
) -> bool {
    r == part_of(address, t, steps)
}

/// Whether `r` is what the steps lead to in the variable that stands at `v`.
pub open spec fn is_part_at(
    s: SectionData,
    v: VariableSite,
    steps: Seq<Step<Seq<char>>>,
    r: Result<PreparedSymbol, PrepareError<Seq<char>>>,
) -> bool {
    exists|t: TypeDesc|
        is_type(s, v.unit, v.type_at, Seq::empty(), t) && #[trigger] is_part(
            v.address,
            t,
            steps,
            r,
        )
}

/// Whether `r` is what the expression `expr` names in an ELF file, or the reason
/// for which it cannot be read.
pub open spec fn is_prepared(
    data: Seq<u8>,
    expr: Seq<char>,
    r: Result<PreparedSymbol, PrepareError<Seq<char>>>,
) -> bool {
    match expression(expr) {
        None => r == Err::<PreparedSymbol, _>(PrepareError::<Seq<char>>::Malformed),
        Some((name, steps)) => match site_of(data, name) {
            Err(e) => r == Err::<PreparedSymbol, _>(PrepareError::Symbol(name, e)),
            Ok((s, v)) => is_part_at(s, v, steps, r),
        },
    }
}

/// Whether looking an expression up came to the same, twice.
pub open spec fn outcomes_alike(
    a: Result<PreparedSymbol, PrepareError<Seq<char>>>,
    b: Result<PreparedSymbol, PrepareError<Seq<char>>>,
) -> bool {
    match (a, b) {
        (Ok(p), Ok(q)) => {
            &&& p.address == q.address
            &&& p.size == q.size
            &&& p.offset == q.offset
            &&& alike(p.kind, q.kind)
        },
        (Err(e), Err(f)) => e == f,
        _ => false,
    }
}

/// An image leaves no doubt about what an expression names.
pub proof fn law_images_fix_variables(
    data: Seq<u8>,
    expr: Seq<char>,
    a: Result<PreparedSymbol, PrepareError<Seq<char>>>,
    b: Result<PreparedSymbol, PrepareError<Seq<char>>>,
)
    requires
        is_prepared(data, expr, a),
        is_prepared(data, expr, b),
    ensures
        outcomes_alike(a, b),
{
    if let Some((name, steps)) = expression(expr) {
        if let Ok((s, v)) = site_of(data, name) {
            let t = choose|t: TypeDesc|
                is_type(s, v.unit, v.type_at, Seq::empty(), t) && #[trigger] is_part(
                    v.address,
                    t,
                    steps,
                    a,
                );
            let u = choose|t: TypeDesc|
                is_type(s, v.unit, v.type_at, Seq::empty(), t) && #[trigger] is_part(
                    v.address,
                    t,
                    steps,
                    b,
                );
            law_entries_fix_types(s, v.unit, v.type_at, Seq::empty(), t, u);
            lemma_alike_walk(t, u, steps);
            lemma_alike_sizes(t, u);
        }
    }
}

/// Makes ready to be read what the steps lead to in a variable of type `t`.
pub fn prepare_part(address: u64, t: TypeDesc, steps: &[Step<String>]) -> (r: Result<
    PreparedSymbol,
    PrepareError<String>,
>)
    requires
        sound(t),
    ensures
        outcome_view(r) == part_of(address, t, step_views(steps@)),
        r matches Ok(p) ==> p.fits() && !(p.kind matches TypeDesc::Plain(l) && leaf_encoding(l@)
            is None),
{
    proof {
        law_paths_stay_inside(t, step_views(steps@));
    }
    let size: usize = t.size();
    match follow(t, steps) {
        Err(e) => Err(PrepareError::Path(e)),
        Ok((offset, kind)) => match kind {
            TypeDesc::Plain(Leaf::Opaque(why)) => Err(PrepareError::Opaque(why)),
            TypeDesc::Plain(Leaf::BitField) => Err(PrepareError::BitField),
            _ => Ok(PreparedSymbol { address, size, offset, kind }),
        },
    }
}

/// Finds what the expression `expr` names in an ELF file and makes it ready to be
/// read.
pub fn prepare_symbol(data: &[u8], expr: &str) -> (r: Result<PreparedSymbol, PrepareError<String>>)
    ensures
        is_prepared(data@, expr@, outcome_view(r)),
        r matches Ok(p) ==> p.fits() && !(p.kind matches TypeDesc::Plain(l) && leaf_encoding(l@)
            is None),
{
    let (name, steps): (String, Vec<Step<String>>) = match parse_expression(expr) {
        None => {
            return Err(PrepareError::Malformed);
        },
        Some(p) => p,
    };
    let (s, v): (DebugSections, VariableSite) = match find_symbol(data, name.as_str()) {
        Err(e) => {
            return Err(PrepareError::Symbol(name, e));
        },
        Ok(found) => found,
    };
    let open: Vec<usize> = Vec::new();
    assert(open@ =~= Seq::empty());
    let t: TypeDesc = read_type(&s, v.unit, v.type_at, &open);
    let ghost whole = t;
    let r: Result<PreparedSymbol, PrepareError<String>> = prepare_part(
        v.address,
        t,
        steps.as_slice(),
    );
    assert(is_part(v.address, whole, step_views(steps@), outcome_view(r)));
    assert(is_part_at(s@, v, step_views(steps@), outcome_view(r)));
    r
}

/// The number that a part holds in the bytes that were read for it; none where
/// there is no single value, or its type is not supported.
pub fn value_from_field(p: &PreparedSymbol, bytes: &[u8]) -> (r: Option<Value>)
    requires
        bytes@.len() >= type_size(p.kind),
    ensures
        r == match p.kind {
            TypeDesc::Plain(l) => leaf_value(l@, bytes@),
            _ => None,
        },
{
    match &p.kind {
        TypeDesc::Plain(l) => l.value(bytes),
        _ => None,
    }
}

// ---------------------------------------------------------------------------
// Reports
// ---------------------------------------------------------------------------

/// The lines that report a single value.
pub open spec fn value_lines(expr: Seq<char>, value: Seq<char>, label: Seq<char>, address: u64) -> Seq<
    Seq<char>,
> {
    seq![
        expr + " = "@ + value,
        "类型: "@ + label + "    地址: 0x"@ + hex(address as nat, 8),
    ]
}

/// The lines that report what was read: the value, its type and its address, or
/// a tree of values.
pub open spec fn report(
    expr: Seq<char>,
    p: PreparedSymbol,
    bytes: Seq<u8>,
    o: FmtOptions,
    floats: FloatTexts,
) -> Result<Seq<Seq<char>>, UnsupportedValue> {
    match p.kind {
        TypeDesc::Plain(l) => match leaf_encoding(l@) {
            None => Ok(tree_lines(p.kind, expr, 0, Seq::empty(), o, bytes, floats)),
            Some((encoding, size)) => if supported(encoding, size) {
                Ok(
                    value_lines(
                        expr,
                        bare_text(l@, value_of(encoding, size, bytes), floats),
                        type_label(p.kind),
                        p.address.wrapping_add(p.offset as u64),
                    ),
                )
            } else {
                Err(UnsupportedValue { encoding, size })
            },
        },
        _ => Ok(tree_lines(p.kind, expr, 0, Seq::empty(), o, bytes, floats)),
    }
}

/// The view of the lines of a report.
pub open spec fn report_view(r: Result<Vec<String>, UnsupportedValue>) -> Result<
    Seq<Seq<char>>,
    UnsupportedValue,
> {
    match r {
        Ok(lines) => Ok(views(lines@)),
        Err(e) => Err(e),
    }
}

fn tree<F: Fn(u64, bool) -> String>(
    expr: &str,
    p: &PreparedSymbol,
    bytes: &[u8],
    o: FmtOptions,
    show: &F,
) -> (r: Vec<String>)
    requires
        writes_any(*show),
        p.fits(),
        bytes@.len() >= type_size(p.kind),
    ensures
        forall|floats: FloatTexts| #[trigger]
            writes(*show, floats) ==> views(r@) == tree_lines(
                p.kind,
                expr@,
                0,
                Seq::empty(),
                o,
                bytes@,
                floats,
            ),
{
    let mut lines: Vec<String> = Vec::new();
    assert(views(lines@) =~= Seq::empty());
    let none: &str = "";
    proof {
        reveal_strlit("");
        assert(none@ =~= Seq::empty());
    }
    write_tree(&p.kind, expr, 0, none, o, bytes, show, &mut lines);
    assert forall|floats: FloatTexts| #[trigger] writes(*show, floats) implies views(lines@)
        == tree_lines(p.kind, expr@, 0, Seq::empty(), o, bytes@, floats) by {
        assert(views(lines@) =~= tree_lines(p.kind, expr@, 0, Seq::empty(), o, bytes@, floats));
    }
    lines
}

/// Writes what was read for an expression. `show` writes floating-point numbers.
pub fn describe<F: Fn(u64, bool) -> String>(
    expr: &str,
    p: &PreparedSymbol,
    bytes: &[u8],
    o: FmtOptions,
    show: &F,
) -> (r: Result<Vec<String>, UnsupportedValue>)
    requires
        writes_any(*show),
        p.fits(),
        bytes@.len() >= type_size(p.kind),
    ensures
        forall|floats: FloatTexts| #[trigger]
            writes(*show, floats) ==> report_view(r) == report(expr@, *p, bytes@, o, floats),
{
    match &p.kind {
        TypeDesc::Plain(l) => match l.encoding() {
            None => Ok(tree(expr, p, bytes, o, show)),
            Some((encoding, size)) => match format_value(l, encoding, size, bytes, show) {
                Err(e) => Err(e),
                Ok(value) => {
                    let mut second: String = joined(
                        "类型: ",
                        p.kind.label().as_str(),
                        "    地址: 0x",
                    );
                    second.append(hex_text(p.field_address(), 8).as_str());
                    let mut lines: Vec<String> = Vec::new();
                    lines.push(joined(expr, " = ", value.as_str()));
                    lines.push(second);
                    assert(views(lines@) =~= value_lines(
                        expr@,
                        value@,
                        type_label(p.kind),
                        p.address.wrapping_add(p.offset as u64),
                    ));
                    Ok(lines)
                },
            },
        },
        _ => Ok(tree(expr, p, bytes, o, show)),
    }
}

/// The wording of a read for the expression `expr` that failed.
pub fn read_failure(expr: &str, p: &PreparedSymbol) -> (r: String)
    requires
        p.fits(),
    ensures
        r@ == "读取符号 "@ + expr@ + " 失败（地址 0x"@ + hex(
            p.address.wrapping_add(p.offset as u64) as nat,
            8,
        ) + "，"@ + dec(type_size(p.kind)) + " 字节）"@,
{
    let mut s: String = joined("读取符号 ", expr, " 失败（地址 0x");
    s.append(hex_text(p.field_address(), 8).as_str());
    s.append("，");
    s.append(dec_text(p.field_size() as u64).as_str());
    s.append(" 字节）");
    s
}

// ---------------------------------------------------------------------------
// What an expression names
// ---------------------------------------------------------------------------

/// An expression names the part of the variable that its steps lead to: the
/// address and the size are those of the variable, the distance and the type those
/// of the part. Bit fields and types that are not read are refused.
pub proof fn law_expressions_name_their_part(
    data: Seq<u8>,
    name: Seq<char>,
    steps: Seq<Step<Seq<char>>>,
    s: SectionData,
    v: VariableSite,
    t: TypeDesc,
    offset: nat,
    part: TypeDesc,
    r: Result<PreparedSymbol, PrepareError<Seq<char>>>,
)
    requires
        is_plain_name(name),
        plain_steps(steps),
        site_of(data, name) == Ok::<_, SymbolError<Seq<char>>>((s, v)),
        is_type(s, v.unit, v.type_at, Seq::empty(), t),
        sound(t),
        walk(t, steps) == Ok::<_, PathError<Seq<char>>>((offset, part)),
        is_prepared(data, name + path_text(steps), r),
    ensures
        part matches TypeDesc::Plain(Leaf::BitField) ==> r is Err,
        part matches TypeDesc::Plain(Leaf::Opaque(_)) ==> r is Err,
        !(part matches TypeDesc::Plain(Leaf::BitField)) && !(part matches TypeDesc::Plain(
            Leaf::Opaque(_),
        )) ==> (r matches Ok(p) && {
            &&& p.address == v.address
            &&& p.size == type_size(t)
            &&& p.offset == offset
            &&& alike(p.kind, part)
        }),
{
    law_expressions_are_read_back(name, steps);
    let own = part_of(v.address, t, steps);
    assert(is_part(v.address, t, steps, own));
    assert(is_part_at(s, v, steps, own));
    law_images_fix_variables(data, name + path_text(steps), r, own);
    law_paths_stay_inside(t, steps);
}

/// A single value is reported in two lines: the expression with the value, then
/// the name of the type and the address of the part.
pub proof fn law_reports_tell_value_and_address(
    expr: Seq<char>,
    p: PreparedSymbol,
    bytes: Seq<u8>,
    o: FmtOptions,
    floats: FloatTexts,
    encoding: Encoding,
    size: usize,
)
    requires
        p.kind matches TypeDesc::Plain(l) && leaf_encoding(l@) == Some((encoding, size)),
        supported(encoding, size),
        p.address + p.offset <= u64::MAX,
    ensures
        ({
            let l = p.kind->Plain_0;
            report(expr, p, bytes, o, floats) matches Ok(lines) && {
                &&& lines.len() == 2
                &&& lines[0] == expr + seq![' ', '=', ' '] + bare_text(
                    l@,
                    value_of(encoding, size, bytes),
                    floats,
                )
                &&& lines[1] == "类型: "@ + type_label(p.kind) + "    地址: 0x"@ + hex(
                    (p.address + p.offset) as nat,
                    8,
                )
            }
        }),
{
    reveal_strlit(" = ");
    assert(" = "@ =~= seq![' ', '=', ' ']);
}

/// What is stated of a variable that was looked up and of a report is stated of
/// all that they hand out.
pub proof fn law_outcomes_are_seen_whole(
    r: Result<PreparedSymbol, PrepareError<String>>,
    lines: Result<Vec<String>, UnsupportedValue>,
    i: int,
)
    ensures
        match r {
            Ok(p) => outcome_view(r) == Ok::<_, PrepareError<Seq<char>>>(p),
            Err(e) => outcome_view(r) == Err::<PreparedSymbol, _>(e@),
        },
        match lines {
            Ok(v) => report_view(lines) matches Ok(a) && a.len() == v@.len() && (0 <= i < v@.len()
                ==> a[i] == v@[i]@),
            Err(e) => report_view(lines) == Err::<Seq<Seq<char>>, _>(e),
        },
{
}

}
