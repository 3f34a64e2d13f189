//! The catalog of the XPath 1.0 core function library: each function's
//! name, arguments and result type.  The catalog is consulted when function
//! calls are built into predicates; the functions themselves are not
//! evaluated by the node-set engine.

use vstd::prelude::*;

verus! {

/// The argument and result types of the XPath core functions.
#[derive(Clone, Copy, Debug, PartialEq, Eq, Structural)]
pub enum DataType {
    /// A boolean value.
    Bool,
    /// A number.
    Number,
    /// A string.
    String,
    /// Any object.
    Object,
    /// A node-set.
    NodeSet,
}

/// The mathematical view of one declared argument.
#[verifier::ext_equal]
pub ghost struct ArgumentView {
    /// The argument's name.
    pub name: Seq<char>,
    /// The argument's type.
    pub data_type: DataType,
    /// Whether the argument is required rather than optional.
    pub required: bool,
}

/// One declared argument of a catalog function.
#[derive(Debug)]
pub struct Argument {
    /// The argument's name.
    pub name: String,
    /// The argument's type.
    pub data_type: DataType,
    /// Whether the argument is required rather than optional.
    pub required: bool,
}

impl View for Argument {
    type V = ArgumentView;

    open spec fn view(&self) -> ArgumentView {
        ArgumentView { name: self.name@, data_type: self.data_type, required: self.required }
    }
}

impl Clone for Argument {
    /// Cloning keeps the argument's name, type and required flag.
    fn clone(&self) -> (r: Self)
        ensures
            r@ == self@,
    {
        Argument {
            name: self.name.clone(),
            data_type: self.data_type,
            required: self.required,
        }
    }
}

impl Argument {
    /// Construct an argument declaration.
    pub fn with(name: &str, data_type: DataType, required: bool) -> (a: Argument)
        ensures
            a@ == (ArgumentView { name: name@, data_type, required }),
    {
        Argument { name: name.to_owned(), data_type, required }
    }
}

/// The views of a sequence of argument declarations.
pub open spec fn args_view(s: Seq<Argument>) -> Seq<ArgumentView> {
    s.map_values(|a: Argument| a@)
}

/// The argument views described by a sequence of `(name, type, required)`
/// triples.
pub open spec fn comps_view(s: Seq<(&str, DataType, bool)>) -> Seq<ArgumentView> {
    s.map_values(
        |c: (&str, DataType, bool)| ArgumentView { name: c.0@, data_type: c.1, required: c.2 },
    )
}

/// The mathematical view of one catalog function.
#[verifier::ext_equal]
pub ghost struct FunctionView {
    /// The function's name.
    pub name: Seq<char>,
    /// The function's declared arguments, in order.
    pub arguments: Seq<ArgumentView>,
    /// The function's result type.
    pub result_type: DataType,
}

/// One function of the catalog: a name, declared arguments and a result
/// type.
#[derive(Debug)]
pub struct Function {
    /// The function's name.
    pub name: String,
    /// The function's declared arguments, in order.
    pub arguments: Vec<Argument>,
    /// The function's result type.
    pub result_type: DataType,
}

impl View for Function {
    type V = FunctionView;

    open spec fn view(&self) -> FunctionView {
        FunctionView {
            name: self.name@,
            arguments: args_view(self.arguments@),
            result_type: self.result_type,
        }
    }
}

impl Clone for Function {
    /// Cloning keeps the function's name, arguments and result type.
    fn clone(&self) -> (r: Self)
        ensures
            r@ == self@,
    {
        let mut arguments: Vec<Argument> = Vec::new();
        proof {
            assert(args_view(arguments@) =~= args_view(self.arguments@).take(0));
        }
        let mut k: usize = 0;
        while k < self.arguments.len()
            invariant
                k <= self.arguments@.len(),
                args_view(arguments@) == args_view(self.arguments@).take(k as int),
            decreases self.arguments@.len() - k,
        {
            let cl = self.arguments[k].clone();
            let ghost clview = cl@;
            let ghost prev = arguments@;
            arguments.push(cl);
            proof {
                assert(args_view(prev).len() == prev.len());
                assert(args_view(self.arguments@).take(k as int).len() == k);
                assert(prev.len() == k);
                assert(clview == self.arguments@[k as int]@);
                assert forall|i: int| 0 <= i < k + 1 implies args_view(arguments@)[i] == args_view(
                    self.arguments@,
                ).take(k + 1)[i] by {
                    if i < k {
                        assert(arguments@[i] == prev[i]);
                        assert(args_view(prev)[i] == prev[i]@);
                    } else {
                        assert(arguments@[i]@ == clview);
                    }
                }
                assert(args_view(arguments@) =~= args_view(self.arguments@).take(k + 1));
            }
            k += 1;
        }
        let r = Function { name: self.name.clone(), arguments, result_type: self.result_type };
        proof {
            assert(args_view(self.arguments@).take(self.arguments@.len() as int) =~= args_view(
                self.arguments@,
            ));
            assert(r@ =~= self@);
        }
        r
    }
}

impl Function {
    /// Construct a catalog function from a name, its argument declarations
    /// and its result type.
    pub fn with(name: &str, arguments: &[Argument], result_type: DataType) -> (f: Function)
        ensures
            f@ == (FunctionView { name: name@, arguments: args_view(arguments@), result_type }),
    {
        let mut args: Vec<Argument> = Vec::new();
        proof {
            assert(args_view(args@) =~= args_view(arguments@).take(0));
        }
        let mut k: usize = 0;
        while k < arguments.len()
            invariant
                k <= arguments@.len(),
                args_view(args@) == args_view(arguments@).take(k as int),
            decreases arguments@.len() - k,
        {
            let a = vstd::slice::slice_index_get(arguments, k);
            let cl = a.clone();
            let ghost clview = cl@;
            let ghost prev = args@;
            args.push(cl);
            proof {
                assert(args_view(prev).len() == prev.len());
                assert(args_view(arguments@).take(k as int).len() == k);
                assert(prev.len() == k);
                assert(clview == arguments@[k as int]@);
                assert forall|i: int| 0 <= i < k + 1 implies args_view(args@)[i] == args_view(
                    arguments@,
                ).take(k + 1)[i] by {
                    if i < k {
                        assert(args@[i] == prev[i]);
                        assert(args_view(prev)[i] == prev[i]@);
                    } else {
                        assert(args@[i]@ == clview);
                    }
                }
                assert(args_view(args@) =~= args_view(arguments@).take(k + 1));
            }
            k += 1;
        }
        let r = Function { name: name.to_owned(), arguments: args, result_type };
        proof {
            assert(args_view(arguments@).take(arguments@.len() as int) =~= args_view(arguments@));
            assert(r@ =~= (FunctionView { name: name@, arguments: args_view(arguments@), result_type }));
        }
        r
    }

    /// Construct a catalog function from plain components: a name, a list
    /// of `(name, type, required)` triples, and a result type.
    pub fn from_components(
        name: &str,
        arguments: &[(&str, DataType, bool)],
        result_type: DataType,
    ) -> (f: Function)
        ensures
            f@ == (FunctionView { name: name@, arguments: comps_view(arguments@), result_type }),
    {
        let mut args: Vec<Argument> = Vec::new();
        proof {
            assert(args_view(args@) =~= comps_view(arguments@).take(0));
        }
        let mut k: usize = 0;
        while k < arguments.len()
            invariant
                k <= arguments@.len(),
                args_view(args@) == comps_view(arguments@).take(k as int),
            decreases arguments@.len() - k,
        {
            let c = *vstd::slice::slice_index_get(arguments, k);
            let cl = Argument::with(c.0, c.1, c.2);
            let ghost clview = cl@;
            let ghost prev = args@;
            args.push(cl);
            proof {
                assert(args_view(prev).len() == prev.len());
                assert(comps_view(arguments@).take(k as int).len() == k);
                assert(prev.len() == k);
                assert(clview == (ArgumentView { name: c.0@, data_type: c.1, required: c.2 }));
                assert(comps_view(arguments@)[k as int] == clview);
                assert forall|i: int| 0 <= i < k + 1 implies args_view(args@)[i] == comps_view(
                    arguments@,
                ).take(k + 1)[i] by {
                    if i < k {
                        assert(args@[i] == prev[i]);
                        assert(args_view(prev)[i] == prev[i]@);
                    } else {
                        assert(args@[i]@ == clview);
                    }
                }
                assert(args_view(args@) =~= comps_view(arguments@).take(k + 1));
            }
            k += 1;
        }
        let r = Function { name: name.to_owned(), arguments: args, result_type };
        proof {
            assert(comps_view(arguments@).take(arguments@.len() as int) =~= comps_view(arguments@));
            assert(r@ =~= (FunctionView { name: name@, arguments: comps_view(arguments@), result_type }));
        }
        r
    }
}


/// Shorthand for an argument view in the catalog below.
pub open spec fn av(name: Seq<char>, data_type: DataType, required: bool) -> ArgumentView {
    ArgumentView { name, data_type, required }
}

/// Shorthand for a function view in the catalog below.
pub open spec fn fv(name: Seq<char>, arguments: Seq<ArgumentView>, result_type: DataType) -> FunctionView {
    FunctionView { name, arguments, result_type }
}

/// The views of a sequence of catalog functions.
pub open spec fn funcs_view(s: Seq<Function>) -> Seq<FunctionView> {
    s.map_values(|f: Function| f@)
}

/// The XPath 1.0 core function library: node-set, string, boolean and
/// number functions, with their argument and result types.
pub open spec fn catalog() -> Seq<FunctionView> {
    seq![
        fv("last"@, seq![], DataType::Number),
        fv("position"@, seq![], DataType::Number),
        fv("count"@, seq![av("node-set"@, DataType::NodeSet, true)], DataType::Number),
        fv("id"@, seq![av("object"@, DataType::Object, true)], DataType::NodeSet),
        fv("local-name"@, seq![av("node-set?"@, DataType::NodeSet, false)], DataType::String),
        fv("namespace-uri"@, seq![av("node-set?"@, DataType::NodeSet, false)], DataType::String),
        fv("name"@, seq![av("node-set?"@, DataType::NodeSet, false)], DataType::String),
        fv("string"@, seq![av("object"@, DataType::Object, false)], DataType::String),
        fv(
            "concat"@,
            seq![
                av("string-1"@, DataType::String, true),
                av("string-2"@, DataType::String, true),
            ],
            DataType::String,
        ),
        fv(
            "starts-with"@,
            seq![
                av("string"@, DataType::String, true),
                av("test-prefix"@, DataType::String, true),
            ],
            DataType::String,
        ),
        fv(
            "contains"@,
            seq![av("string"@, DataType::String, true), av("test-in"@, DataType::String, true)],
            DataType::String,
        ),
        fv(
            "substring-before"@,
            seq![av("string"@, DataType::String, true), av("split-at"@, DataType::String, true)],
            DataType::String,
        ),
        fv(
            "substring-after"@,
            seq![av("string"@, DataType::String, true), av("split-at"@, DataType::String, true)],
            DataType::String,
        ),
        fv(
            "substring"@,
            seq![
                av("string"@, DataType::String, true),
                av("start"@, DataType::Number, true),
                av("length"@, DataType::Number, false),
            ],
            DataType::String,
        ),
        fv("string-length"@, seq![av("string"@, DataType::String, false)], DataType::String),
        fv("normalize-space"@, seq![av("string"@, DataType::String, false)], DataType::String),
        fv(
            "translate"@,
            seq![
                av("string"@, DataType::String, true),
                av("replace"@, DataType::String, true),
                av("with"@, DataType::String, true),
            ],
            DataType::String,
        ),
        fv("boolean"@, seq![av("object"@, DataType::Object, true)], DataType::Bool),
        fv("not"@, seq![av("value"@, DataType::Bool, true)], DataType::Bool),
        fv("true"@, seq![], DataType::Bool),
        fv("false"@, seq![], DataType::Bool),
        fv("lang"@, seq![av("string"@, DataType::String, true)], DataType::Bool),
        fv("number"@, seq![av("object"@, DataType::Object, true)], DataType::Number),
        fv("sum"@, seq![av("node-set"@, DataType::NodeSet, true)], DataType::Number),
        fv("floor"@, seq![av("number"@, DataType::Number, true)], DataType::Number),
        fv("ceiling"@, seq![av("number"@, DataType::Number, true)], DataType::Number),
        fv("round"@, seq![av("number"@, DataType::Number, true)], DataType::Number),
    ]
}

/// Whether `name` names a function of the catalog.
pub open spec fn spec_is_function(name: Seq<char>) -> bool {
    exists|i: int| 0 <= i < catalog().len() && (#[trigger] catalog()[i]).name == name
}

/// A catalog function with no arguments.
fn fun0(name: &str, result_type: DataType) -> (f: Function)
    ensures
        f@ == fv(name@, seq![], result_type),
{
    let f = Function { name: name.to_owned(), arguments: Vec::new(), result_type };
    proof {
        assert(f@ =~= fv(name@, seq![], result_type));
    }
    f
}

/// A catalog function with one argument.
fn fun1(name: &str, a1: Argument, result_type: DataType) -> (f: Function)
    ensures
        f@ == fv(name@, seq![a1@], result_type),
{
    let ghost a1v = a1@;
    let mut arguments: Vec<Argument> = Vec::new();
    arguments.push(a1);
    let f = Function { name: name.to_owned(), arguments, result_type };
    proof {
        assert(f@ =~= fv(name@, seq![a1v], result_type));
    }
    f
}

/// A catalog function with two arguments.
fn fun2(name: &str, a1: Argument, a2: Argument, result_type: DataType) -> (f: Function)
    ensures
        f@ == fv(name@, seq![a1@, a2@], result_type),
{
    let ghost a1v = a1@;
    let ghost a2v = a2@;
    let mut arguments: Vec<Argument> = Vec::new();
    arguments.push(a1);
    arguments.push(a2);
    let f = Function { name: name.to_owned(), arguments, result_type };
    proof {
        assert(f@ =~= fv(name@, seq![a1v, a2v], result_type));
    }
    f
}

/// A catalog function with three arguments.
fn fun3(name: &str, a1: Argument, a2: Argument, a3: Argument, result_type: DataType) -> (f: Function)
    ensures
        f@ == fv(name@, seq![a1@, a2@, a3@], result_type),
{
    let ghost a1v = a1@;
    let ghost a2v = a2@;
    let ghost a3v = a3@;
    let mut arguments: Vec<Argument> = Vec::new();
    arguments.push(a1);
    arguments.push(a2);
    arguments.push(a3);
    let f = Function { name: name.to_owned(), arguments, result_type };
    proof {
        assert(f@ =~= fv(name@, seq![a1v, a2v, a3v], result_type));
    }
    f
}

/// The whole catalog, as values: one `Function` for each entry of
/// [`catalog`], in catalog order.
#[verifier::rlimit(100)]
pub fn required_functions() -> (r: Vec<Function>)
    ensures
        funcs_view(r@) == catalog(),
{
    let mut v: Vec<Function> = Vec::new();
    v.push(fun0("last", DataType::Number));
    v.push(fun0("position", DataType::Number));
    v.push(fun1("count", Argument::with("node-set", DataType::NodeSet, true), DataType::Number));
    v.push(fun1("id", Argument::with("object", DataType::Object, true), DataType::NodeSet));
    v.push(
        fun1(
            "local-name",
            Argument::with("node-set?", DataType::NodeSet, false),
            DataType::String,
        ),
    );
    v.push(
        fun1(
            "namespace-uri",
            Argument::with("node-set?", DataType::NodeSet, false),
            DataType::String,
        ),
    );
    v.push(fun1("name", Argument::with("node-set?", DataType::NodeSet, false), DataType::String));
    v.push(fun1("string", Argument::with("object", DataType::Object, false), DataType::String));
    v.push(
        fun2(
            "concat",
            Argument::with("string-1", DataType::String, true),
            Argument::with("string-2", DataType::String, true),
            DataType::String,
        ),
    );
    v.push(
        fun2(
            "starts-with",
            Argument::with("string", DataType::String, true),
            Argument::with("test-prefix", DataType::String, true),
            DataType::String,
        ),
    );
    v.push(
        fun2(
            "contains",
            Argument::with("string", DataType::String, true),
            Argument::with("test-in", DataType::String, true),
            DataType::String,
        ),
    );
    v.push(
        fun2(
            "substring-before",
            Argument::with("string", DataType::String, true),
            Argument::with("split-at", DataType::String, true),
            DataType::String,
        ),
    );
    v.push(
        fun2(
            "substring-after",
            Argument::with("string", DataType::String, true),
            Argument::with("split-at", DataType::String, true),
            DataType::String,
        ),
    );
    v.push(
        fun3(
            "substring",
            Argument::with("string", DataType::String, true),
            Argument::with("start", DataType::Number, true),
            Argument::with("length", DataType::Number, false),
            DataType::String,
        ),
    );
    v.push(
        fun1("string-length", Argument::with("string", DataType::String, false), DataType::String),
    );
    v.push(
        fun1(
            "normalize-space",
            Argument::with("string", DataType::String, false),
            DataType::String,
        ),
    );
    v.push(
        fun3(
            "translate",
            Argument::with("string", DataType::String, true),
            Argument::with("replace", DataType::String, true),
            Argument::with("with", DataType::String, true),
            DataType::String,
        ),
    );
    v.push(fun1("boolean", Argument::with("object", DataType::Object, true), DataType::Bool));
    v.push(fun1("not", Argument::with("value", DataType::Bool, true), DataType::Bool));
    v.push(fun0("true", DataType::Bool));
    v.push(fun0("false", DataType::Bool));
    v.push(fun1("lang", Argument::with("string", DataType::String, true), DataType::Bool));
    v.push(fun1("number", Argument::with("object", DataType::Object, true), DataType::Number));
    v.push(fun1("sum", Argument::with("node-set", DataType::NodeSet, true), DataType::Number));
    v.push(fun1("floor", Argument::with("number", DataType::Number, true), DataType::Number));
    v.push(fun1("ceiling", Argument::with("number", DataType::Number, true), DataType::Number));
    v.push(fun1("round", Argument::with("number", DataType::Number, true), DataType::Number));
    proof {
        assert(funcs_view(v@) =~= catalog());
    }
    v
}

/// The catalog entry named `name`, if the catalog has one.
pub fn get_function(name: &str) -> (r: Option<Function>)
    ensures
        match r {
            Some(f) => spec_is_function(name@) && f@.name == name@ && catalog().contains(f@),
            None => !spec_is_function(name@),
        },
{
    let fs = required_functions();
    let owned = name.to_owned();
    let num = fs.len();
    let mut k: usize = 0;
    while k < num
        invariant
            funcs_view(fs@) == catalog(),
            owned@ == name@,
            num == fs@.len(),
            k <= num,
            forall|i: int| 0 <= i < k ==> (#[trigger] catalog()[i]).name != name@,
        decreases num - k,
    {
        proof {
            assert(funcs_view(fs@).len() == fs@.len());
            assert(funcs_view(fs@)[k as int] == fs@[k as int]@);
        }
        if fs[k].name == owned {
            let found = fs[k].clone();
            proof {
                assert(catalog()[k as int] == fs@[k as int]@);
                assert(catalog().contains(found@));
            }
            return Some(found);
        }
        k += 1;
    }
    proof {
        assert(funcs_view(fs@).len() == fs@.len());
        if spec_is_function(name@) {
            let i = choose|i: int|
                0 <= i < catalog().len() && (#[trigger] catalog()[i]).name == name@;
            assert(catalog()[i].name != name@);
        }
    }
    None
}

/// Whether `name` names a function of the XPath core library.
pub fn is_function(name: &str) -> (b: bool)
    ensures
        b == spec_is_function(name@),
{
    get_function(name).is_some()
}


} // verus!
