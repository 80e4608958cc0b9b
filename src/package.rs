//! The release package: compiled modules plus an optional call made at deployment.
use crate::codec::{
    bytes_enc, lemma_bytes_round_trip, lemma_list_round_trip, lemma_placed_split, list_enc,
    list_fits, parse_bytes, parse_list, placed, push_bytes, push_list, push_uleb, read_bytes,
    read_list, uleb, views, items_enc, MAX_LEN,
};
use vstd::prelude::*;
use vstd::utf8::encode_utf8;

verus! {

/// Why a release could not be built.
#[derive(Debug, Clone, Copy, PartialEq, Eq)]
pub enum BuildError {
    /// A requested target is not one this library packages for.
    UnsupportedTarget,
    /// The init function is not of the form `address::module::function`.
    MalformedInitFunction,
    /// A module, a name or a list is longer than the package format carries.
    PackageTooLarge,
}

/// One compiled module, carried as its serialized bytes.
#[derive(Debug)]
pub struct Module {
    pub code: Vec<u8>,
}

impl View for Module {
    type V = Seq<u8>;

    open spec fn view(&self) -> Seq<u8> {
        self.code@
    }
}

impl Module {
    pub fn new(code: Vec<u8>) -> (r: Module)
        ensures
            r@ == code@,
    {
        Module { code }
    }
}

/// A module's address and name, as UTF-8 bytes.
#[derive(Debug)]
pub struct ModuleId {
    pub address: Vec<u8>,
    pub name: Vec<u8>,
}

/// A callable entry point: `address::module::function`.
#[derive(Debug)]
pub struct FunctionId {
    pub module: ModuleId,
    pub function: Vec<u8>,
}

/// The call described by a script function.
pub ghost struct ScriptModel {
    pub address: Seq<u8>,
    pub module: Seq<u8>,
    pub function: Seq<u8>,
    pub ty_args: Seq<Seq<u8>>,
    pub args: Seq<Seq<u8>>,
}

/// The contents of a package.
pub ghost struct PackageModel {
    pub modules: Seq<Seq<u8>>,
    pub init_script: Option<ScriptModel>,
}

/// A call of `module::function` with serialized type arguments and arguments.
#[derive(Debug)]
pub struct ScriptFunction {
    pub module: ModuleId,
    pub function: Vec<u8>,
    pub ty_args: Vec<Vec<u8>>,
    pub args: Vec<Vec<u8>>,
}

impl View for ScriptFunction {
    type V = ScriptModel;

    open spec fn view(&self) -> ScriptModel {
        ScriptModel {
            address: self.module.address@,
            module: self.module.name@,
            function: self.function@,
            ty_args: views(self.ty_args@),
            args: views(self.args@),
        }
    }
}

impl ScriptFunction {
    pub fn new(module: ModuleId, function: Vec<u8>, ty_args: Vec<Vec<u8>>, args: Vec<Vec<u8>>) -> (r:
        ScriptFunction)
        ensures
            r.module == module,
            r.function == function,
            r.ty_args == ty_args,
            r.args == args,
    {
        ScriptFunction { module, function, ty_args, args }
    }
}

/// Modules in the order the compiler gave them, and the call to make on deployment.
#[derive(Debug)]
pub struct Package {
    pub modules: Vec<Module>,
    pub init_script: Option<ScriptFunction>,
}

pub open spec fn module_views(ms: Seq<Module>) -> Seq<Seq<u8>> {
    ms.map_values(|m: Module| m@)
}

impl View for Package {
    type V = PackageModel;

    open spec fn view(&self) -> PackageModel {
        package_model(self.modules@, self.init_script)
    }
}

/// The contents of a package of `modules` and `init_script`.
pub open spec fn package_model(modules: Seq<Module>, init_script: Option<ScriptFunction>) -> PackageModel {
    PackageModel {
        modules: module_views(modules),
        init_script: match init_script {
            Some(s) => Some(s@),
            None => None,
        },
    }
}

/// The canonical form of a script function.
pub open spec fn script_enc(s: ScriptModel) -> Seq<u8> {
    bytes_enc(s.address) + bytes_enc(s.module) + bytes_enc(s.function) + list_enc(s.ty_args)
        + list_enc(s.args)
}

/// The canonical form of a package: its modules as a list, then a tag byte, `0` for
/// no init call and `1` followed by the script function.
pub open spec fn package_enc(p: PackageModel) -> Seq<u8> {
    list_enc(p.modules) + match p.init_script {
        None => seq![0u8],
        Some(s) => seq![1u8] + script_enc(s),
    }
}

pub open spec fn script_fits(s: ScriptModel) -> bool {
    s.address.len() <= MAX_LEN && s.module.len() <= MAX_LEN && s.function.len() <= MAX_LEN
        && list_fits(s.ty_args) && list_fits(s.args)
}

/// Every length in the package is within what the format carries.
pub open spec fn package_fits(p: PackageModel) -> bool {
    list_fits(p.modules) && match p.init_script {
        Some(s) => script_fits(s),
        None => true,
    }
}

/// The script function at `i` and the position after it.
pub open spec fn parse_script(b: Seq<u8>, i: int) -> Option<(ScriptModel, int)> {
    match parse_bytes(b, i) {
        Some((a, i1)) => match parse_bytes(b, i1) {
            Some((m, i2)) => match parse_bytes(b, i2) {
                Some((f, i3)) => match parse_list(b, i3) {
                    Some((t, i4)) => match parse_list(b, i4) {
                        Some((g, i5)) => Some(
                            (ScriptModel { address: a, module: m, function: f, ty_args: t, args: g }, i5),
                        ),
                        None => None,
                    },
                    None => None,
                },
                None => None,
            },
            None => None,
        },
        None => None,
    }
}

/// The package that `b` holds, with nothing after it; `None` when `b` is not one.
pub open spec fn parse_package(b: Seq<u8>) -> Option<PackageModel> {
    match parse_list(b, 0) {
        Some((ms, j)) => if 0 <= j < b.len() && b[j] == 0 && j + 1 == b.len() {
            Some(PackageModel { modules: ms, init_script: None })
        } else if 0 <= j < b.len() && b[j] == 1 {
            match parse_script(b, j + 1) {
                Some((s, k)) => if k == b.len() {
                    Some(PackageModel { modules: ms, init_script: Some(s) })
                } else {
                    None
                },
                None => None,
            }
        } else {
            None
        },
        None => None,
    }
}

proof fn lemma_script_round_trip(b: Seq<u8>, i: int, s: ScriptModel)
    requires
        script_fits(s),
        placed(b, i, script_enc(s)),
    ensures
        parse_script(b, i) == Some((s, i + script_enc(s).len())),
{
    let e1 = bytes_enc(s.address);
    let e2 = bytes_enc(s.module);
    let e3 = bytes_enc(s.function);
    let e4 = list_enc(s.ty_args);
    let e5 = list_enc(s.args);
    lemma_placed_split(b, i, e1 + e2 + e3 + e4, e5);
    lemma_placed_split(b, i, e1 + e2 + e3, e4);
    lemma_placed_split(b, i, e1 + e2, e3);
    lemma_placed_split(b, i, e1, e2);
    lemma_bytes_round_trip(b, i, s.address);
    lemma_bytes_round_trip(b, i + e1.len(), s.module);
    lemma_bytes_round_trip(b, i + e1.len() + e2.len(), s.function);
    lemma_list_round_trip(b, i + e1.len() + e2.len() + e3.len(), s.ty_args);
    lemma_list_round_trip(b, i + e1.len() + e2.len() + e3.len() + e4.len(), s.args);
}

/// Reading back the canonical form of a package gives the same modules, byte for byte
/// and in the same order, and the same init call.
pub proof fn lemma_package_round_trip(p: PackageModel)
    requires
        package_fits(p),
    ensures
        parse_package(package_enc(p)) == Some(p),
{
    let b = package_enc(p);
    let tail = match p.init_script {
        None => seq![0u8],
        Some(s) => seq![1u8] + script_enc(s),
    };
    assert(b.subrange(0, b.len() as int) =~= b);
    lemma_placed_split(b, 0, list_enc(p.modules), tail);
    lemma_list_round_trip(b, 0, p.modules);
    let j = list_enc(p.modules).len() as int;
    assert(b[j] == tail[0]);
    match p.init_script {
        None => {},
        Some(s) => {
            lemma_placed_split(b, j, seq![1u8], script_enc(s));
            lemma_script_round_trip(b, j + 1, s);
        },
    }
}


impl Package {
    /// A package of `modules`, in their order, and `init_script`; fails when a length
    /// in it is beyond what the package format carries.
    pub fn new(modules: Vec<Module>, init_script: Option<ScriptFunction>) -> (r: Result<
        Package,
        BuildError,
    >)
        ensures
            match r {
                Ok(p) => package_fits(package_model(modules@, init_script)) && p.modules == modules
                    && p.init_script == init_script,
                Err(e) => !package_fits(package_model(modules@, init_script)) && e
                    == BuildError::PackageTooLarge,
            },
    {
        let p = Package { modules, init_script };
        if p.fits() {
            Ok(p)
        } else {
            Err(BuildError::PackageTooLarge)
        }
    }

    /// Whether every length in the package is within what the format carries.
    pub fn fits(&self) -> (r: bool)
        ensures
            r == package_fits(self@),
    {
        if self.modules.len() as u64 > MAX_LEN {
            return false;
        }
        let mut k: usize = 0;
        while k < self.modules.len()
            invariant
                k <= self.modules@.len(),
                forall|m: int| 0 <= m < k ==> module_views(self.modules@)[m].len() <= MAX_LEN,
            decreases self.modules@.len() - k,
        {
            if self.modules[k].code.len() as u64 > MAX_LEN {
                assert(module_views(self.modules@)[k as int] == self.modules@[k as int]@);
                return false;
            }
            k = k + 1;
        }
        match &self.init_script {
            None => true,
            Some(s) => s.module.address.len() as u64 <= MAX_LEN && s.module.name.len() as u64
                <= MAX_LEN && s.function.len() as u64 <= MAX_LEN && crate::codec::list_within(
                &s.ty_args,
            ) && crate::codec::list_within(&s.args),
        }
    }

    /// The canonical binary form of the package.
    pub fn to_bytes(&self) -> (r: Vec<u8>)
        requires
            package_fits(self@),
        ensures
            r@ == package_enc(self@),
    {
        let mut out: Vec<u8> = Vec::new();
        push_uleb(&mut out, self.modules.len() as u64);
        let ghost ms = module_views(self.modules@);
        let mut k: usize = 0;
        while k < self.modules.len()
            invariant
                ms == module_views(self.modules@),
                list_fits(ms),
                k <= self.modules@.len(),
                out@ == uleb(ms.len()) + items_enc(ms.subrange(0, k as int)),
            decreases self.modules@.len() - k,
        {
            assert(ms[k as int] == self.modules@[k as int]@);
            let ghost front = ms.subrange(0, k as int);
            let ghost before = out@;
            push_bytes(&mut out, &self.modules[k].code);
            let ghost next = ms.subrange(0, k + 1);
            assert(next.drop_last() =~= front);
            assert(items_enc(next) == items_enc(front) + bytes_enc(next.last()));
            assert(out@ =~= uleb(ms.len()) + items_enc(next));
            k = k + 1;
        }
        assert(ms.subrange(0, k as int) =~= ms);
        let ghost listed = out@;
        match &self.init_script {
            None => {
                out.push(0u8);
            },
            Some(s) => {
                out.push(1u8);
                push_bytes(&mut out, &s.module.address);
                push_bytes(&mut out, &s.module.name);
                push_bytes(&mut out, &s.function);
                push_list(&mut out, &s.ty_args);
                push_list(&mut out, &s.args);
                assert(out@ =~= listed + (seq![1u8] + script_enc(s@)));
            },
        }
        assert(out@ =~= package_enc(self@));
        out
    }

    /// The package whose canonical form is exactly `b`; `None` when `b` is not one.
    pub fn from_bytes(b: &Vec<u8>) -> (r: Option<Package>)
        ensures
            match parse_package(b@) {
                Some(m) => r matches Some(p) && p@ == m,
                None => r is None,
            },
    {
        let (codes, j) = match read_list(b, 0) {
            Some(x) => x,
            None => return None,
        };
        let mut modules: Vec<Module> = Vec::new();
        let mut k: usize = 0;
        while k < codes.len()
            invariant
                k <= codes@.len(),
                module_views(modules@) == views(codes@).subrange(0, k as int),
            decreases codes@.len() - k,
        {
            let ghost before = modules@;
            modules.push(Module::new(crate::codec::copy_bytes(&codes[k])));
            assert(module_views(modules@) =~= module_views(before).push(codes@[k as int]@));
            assert(views(codes@).subrange(0, k + 1) =~= views(codes@).subrange(0, k as int).push(
                codes@[k as int]@,
            ));
            k = k + 1;
        }
        assert(views(codes@).subrange(0, k as int) =~= views(codes@));
        if j < b.len() && b[j] == 0 && j + 1 == b.len() {
            return Some(Package { modules, init_script: None });
        }
        if j < b.len() && b[j] == 1 {
            match read_script(b, j + 1) {
                Some((s, end)) => {
                    if end == b.len() {
                        return Some(Package { modules, init_script: Some(s) });
                    }
                },
                None => {},
            }
        }
        None
    }
}

/// Reads the script function at `i`.
fn read_script(b: &Vec<u8>, i: usize) -> (r: Option<(ScriptFunction, usize)>)
    ensures
        match parse_script(b@, i as int) {
            Some((s, k)) => r matches Some((f, e)) && f@ == s && e == k,
            None => r is None,
        },
{
    let (address, i1) = match read_bytes(b, i) {
        Some(x) => x,
        None => return None,
    };
    let (name, i2) = match read_bytes(b, i1) {
        Some(x) => x,
        None => return None,
    };
    let (function, i3) = match read_bytes(b, i2) {
        Some(x) => x,
        None => return None,
    };
    let (ty_args, i4) = match read_list(b, i3) {
        Some(x) => x,
        None => return None,
    };
    let (args, i5) = match read_list(b, i4) {
        Some(x) => x,
        None => return None,
    };
    Some((ScriptFunction::new(ModuleId { address, name }, function, ty_args, args), i5))
}


/// Index of the first `::` in `s` at or after `i`, or `s.len()` if none.
pub open spec fn sep_from(s: Seq<char>, i: int) -> int
    decreases s.len() - i,
{
    if i < 0 || i + 1 >= s.len() {
        s.len() as int
    } else if s[i] == ':' && s[i + 1] == ':' {
        i
    } else {
        sep_from(s, i + 1)
    }
}

proof fn lemma_sep_from_bounds(s: Seq<char>, i: int)
    requires
        0 <= i <= s.len(),
    ensures
        i <= sep_from(s, i) <= s.len(),
        sep_from(s, i) < s.len() ==> sep_from(s, i) + 2 <= s.len(),
    decreases s.len() - i,
{
    if i + 1 < s.len() && !(s[i] == ':' && s[i + 1] == ':') {
        lemma_sep_from_bounds(s, i + 1);
    }
}

/// The address, module and function of `address::module::function`: the three pieces
/// of `s` split at `::`; `None` unless there are exactly three.
pub open spec fn function_id_parts(s: Seq<char>) -> Option<(Seq<char>, Seq<char>, Seq<char>)> {
    let p1 = sep_from(s, 0);
    let p2 = sep_from(s, p1 + 2);
    if p1 >= s.len() || p2 >= s.len() || sep_from(s, p2 + 2) < s.len() {
        None
    } else {
        Some((s.subrange(0, p1), s.subrange(p1 + 2, p2), s.subrange(p2 + 2, s.len() as int)))
    }
}

fn find_sep(s: &str, from: usize) -> (r: usize)
    requires
        from <= s@.len(),
    ensures
        r == sep_from(s@, from as int),
{
    let len = s.unicode_len();
    let mut i: usize = from;
    while len > 0 && i < len - 1
        invariant
            len == s@.len(),
            from <= i <= len,
            sep_from(s@, from as int) == sep_from(s@, i as int),
        decreases len - i,
    {
        if s.get_char(i) == ':' && s.get_char(i + 1) == ':' {
            return i;
        }
        i = i + 1;
    }
    len
}

impl FunctionId {
    /// Parses `address::module::function`; each part is kept as its UTF-8 bytes.
    pub fn from(s: &str) -> (r: Result<FunctionId, BuildError>)
        ensures
            match function_id_parts(s@) {
                Some((a, m, f)) => r matches Ok(id) && id.module.address@ == encode_utf8(a)
                    && id.module.name@ == encode_utf8(m) && id.function@ == encode_utf8(f),
                None => r == Err::<FunctionId, BuildError>(BuildError::MalformedInitFunction),
            },
    {
        let len = s.unicode_len();
        let p1 = find_sep(s, 0);
        proof {
            lemma_sep_from_bounds(s@, 0);
        }
        if p1 >= len {
            return Err(BuildError::MalformedInitFunction);
        }
        let p2 = find_sep(s, p1 + 2);
        proof {
            lemma_sep_from_bounds(s@, p1 + 2);
        }
        if p2 >= len {
            return Err(BuildError::MalformedInitFunction);
        }
        let p3 = find_sep(s, p2 + 2);
        if p3 < len {
            return Err(BuildError::MalformedInitFunction);
        }
        let address = s.substring_char(0, p1).as_bytes_vec();
        let name = s.substring_char(p1 + 2, p2).as_bytes_vec();
        let function = s.substring_char(p2 + 2, len).as_bytes_vec();
        Ok(FunctionId { module: ModuleId { address, name }, function })
    }
}

/// The init call that `init_function` asks for: `Some(None)` for none (empty text), and
/// `None` when the text is not a function id.
pub open spec fn init_call(init_function: Seq<char>) -> Option<Option<ScriptModel>> {
    if init_function.len() == 0 {
        Some(None)
    } else {
        match function_id_parts(init_function) {
            Some((a, m, f)) => Some(
                Some(
                    ScriptModel {
                        address: encode_utf8(a),
                        module: encode_utf8(m),
                        function: encode_utf8(f),
                        ty_args: Seq::empty(),
                        args: Seq::empty(),
                    },
                ),
            ),
            None => None,
        }
    }
}

/// The script function to run on deployment: none for an empty `init_function`, else a
/// call of the function it names with no type arguments and no arguments.
pub fn init_script(init_function: &str) -> (r: Result<Option<ScriptFunction>, BuildError>)
    ensures
        match init_call(init_function@) {
            Some(call) => r matches Ok(s) && call == match s {
                Some(f) => Some(f@),
                None => None::<ScriptModel>,
            },
            None => r == Err::<Option<ScriptFunction>, BuildError>(
                BuildError::MalformedInitFunction,
            ),
        },
        r matches Ok(Some(f)) ==> f.ty_args@.len() == 0 && f.args@.len() == 0,
{
    if init_function.unicode_len() == 0 {
        return Ok(None);
    }
    match FunctionId::from(init_function) {
        Ok(id) => {
            let f = ScriptFunction::new(id.module, id.function, Vec::new(), Vec::new());
            assert(views(f.ty_args@) =~= Seq::<Seq<u8>>::empty());
            assert(views(f.args@) =~= Seq::<Seq<u8>>::empty());
            Ok(Some(f))
        },
        Err(e) => Err(e),
    }
}

/// Two packages with the same canonical form have the same modules, in the same order,
/// and the same init call: the form, and so any digest of it, identifies the contents.
pub proof fn lemma_canonical_form_identifies(p: PackageModel, q: PackageModel)
    requires
        package_fits(p),
        package_fits(q),
        package_enc(p) == package_enc(q),
    ensures
        p == q,
{
    lemma_package_round_trip(p);
    lemma_package_round_trip(q);
}

} // verus!
