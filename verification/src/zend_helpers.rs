//! What the engine shows of one observed call, as plain values, and the reads
//! and writes that the observer makes on it.
//!
//! A `Call` is a snapshot: the function, `$this` and the arguments. Readers
//! answer `None` for anything that is absent or of another type. Writers add
//! entries under keys that are absent and never touch an entry that is there.

use crate::text::{bytes_of, cap, copy, fitting, int_text, nonempty, opt_text, same, signed_text};
use vstd::prelude::*;
use vstd::utf8::{decode_utf8, encode_utf8, valid_utf8};

verus! {

/// A key of a PHP array.
pub enum Key {
    Int(i64),
    Str(String),
}

/// A PHP value. A double is held as the text it prints as.
pub enum Zval {
    Undef,
    Null,
    Bool(bool),
    Long(i64),
    Double(String),
    Str(Vec<u8>),
    Array(Vec<(Key, Zval)>),
    Object(Box<Object>),
    Resource,
    Reference(Box<Zval>),
}

/// A PHP object: its handle, its class followed by its parent classes, and its
/// properties whatever their visibility.
pub struct Object {
    pub handle: u32,
    pub classes: Vec<String>,
    pub properties: Vec<(String, Zval)>,
}

/// The function behind a call.
pub struct Function {
    pub name: Option<String>,
    pub class: Option<String>,
    /// Defined in PHP code, not in the engine or an extension.
    pub user: bool,
    pub filename: Option<String>,
    pub line_start: u32,
    pub arg_names: Vec<Option<String>>,
}

/// One observed call.
pub struct Call {
    /// The address of the function's record: zero when there is none.
    pub function: u64,
    pub func: Option<Function>,
    pub this: Option<Object>,
    pub args: Vec<Zval>,
}

/// What `String::from_utf8_lossy` makes of bytes.
pub uninterp spec fn lossy(bytes: Seq<u8>) -> Seq<char>;

/// `String::from_utf8_lossy`: valid UTF-8 comes back as the text it encodes;
/// what stands for an invalid sequence is left to the name `lossy`.
#[verifier::external_body]
fn lossy_text(bytes: &Vec<u8>) -> (r: String)
    ensures
        valid_utf8(bytes@) ==> r@ == decode_utf8(bytes@),
        !valid_utf8(bytes@) ==> r@ == lossy(bytes@),
{
    String::from_utf8_lossy(bytes).into_owned()
}

/// The text that the bytes of a PHP string stand for.
pub open spec fn string_text(bytes: Seq<u8>) -> Seq<char> {
    if valid_utf8(bytes) {
        decode_utf8(bytes)
    } else {
        lossy(bytes)
    }
}

/// The value behind a reference, or the value itself.
pub open spec fn target(v: Zval) -> Zval {
    match v {
        Zval::Reference(inner) => *inner,
        other => other,
    }
}

/// A scalar as text: strings, numbers and booleans have one.
pub open spec fn scalar_text(v: Zval) -> Option<Seq<char>> {
    match v {
        Zval::Str(bytes) => Some(string_text(bytes@)),
        Zval::Long(n) => Some(int_text(n as int)),
        Zval::Double(text) => Some(text@),
        Zval::Bool(true) => Some("true"@),
        Zval::Bool(false) => Some("false"@),
        _ => None,
    }
}

/// A text cut to at most `max` bytes, when there is one.
pub open spec fn capped(o: Option<Seq<char>>, max: nat) -> Option<Seq<char>> {
    match o {
        Some(s) => Some(fitting(s, max)),
        None => None,
    }
}

/// The value under a text key of a table.
pub open spec fn entry_at(t: Seq<(Key, Zval)>, key: Seq<char>) -> Option<Zval>
    decreases t.len(),
{
    if t.len() == 0 {
        None
    } else if is_key(t[0].0, key) {
        Some(t[0].1)
    } else {
        entry_at(t.drop_first(), key)
    }
}

/// Whether a key is the given text.
pub open spec fn is_key(k: Key, key: Seq<char>) -> bool {
    match k {
        Key::Str(s) => s@ == key,
        Key::Int(_) => false,
    }
}

/// The value under an integer key of a table.
pub open spec fn entry_at_index(t: Seq<(Key, Zval)>, index: i64) -> Option<Zval>
    decreases t.len(),
{
    if t.len() == 0 {
        None
    } else if t[0].0 == Key::Int(index) {
        Some(t[0].1)
    } else {
        entry_at_index(t.drop_first(), index)
    }
}

/// The property's own value, `Undef` when the object has none of that name.
pub open spec fn property_slot(p: Seq<(String, Zval)>, name: Seq<char>) -> Zval
    decreases p.len(),
{
    if p.len() == 0 {
        Zval::Undef
    } else if p[0].0@ == name {
        p[0].1
    } else {
        property_slot(p.drop_first(), name)
    }
}

impl Object {
    /// Whether a property of this name can be looked up at all.
    pub open spec fn readable(&self, name: Seq<char>) -> bool {
        self.classes@.len() > 0 && !name.contains('\0')
    }

    /// A property's value with a reference followed, `Undef` when unreadable.
    pub open spec fn property(&self, name: Seq<char>) -> Zval {
        if self.readable(name) {
            target(property_slot(self.properties@, name))
        } else {
            Zval::Undef
        }
    }

    /// The array in a property, when it is one.
    pub open spec fn table(&self, name: Seq<char>) -> Option<Seq<(Key, Zval)>> {
        match self.property(name) {
            Zval::Array(t) => Some(t@),
            _ => None,
        }
    }

    /// The text of a scalar property.
    pub open spec fn text(&self, name: Seq<char>) -> Option<Seq<char>> {
        scalar_text(self.property(name))
    }

    /// The text of a scalar under a key of an array property.
    pub open spec fn table_text(&self, name: Seq<char>, key: Seq<char>) -> Option<Seq<char>> {
        match self.table(name) {
            Some(t) => match entry_at(t, key) {
                Some(v) => scalar_text(v),
                None => None,
            },
            None => None,
        }
    }

    /// The object in a property, when it is one.
    pub open spec fn object(&self, name: Seq<char>) -> Option<Object> {
        match self.property(name) {
            Zval::Object(o) => Some(*o),
            _ => None,
        }
    }
}

impl Call {
    /// The argument in a slot, `Undef` when it was not passed.
    pub open spec fn arg(&self, index: int) -> Zval {
        if 0 <= index < self.args@.len() {
            self.args@[index]
        } else {
            Zval::Undef
        }
    }

    /// The object passed in a slot, directly or by reference.
    pub open spec fn object_arg(&self, index: int) -> Option<Object> {
        match target(self.arg(index)) {
            Zval::Object(o) => Some(*o),
            _ => None,
        }
    }
}

fn zval_to_owned_string(v: &Zval) -> (r: Option<String>)
    ensures
        opt_text(r) == scalar_text(*v),
{
    match v {
        Zval::Str(bytes) => Some(lossy_text(bytes)),
        Zval::Long(n) => Some(signed_text(*n)),
        Zval::Double(text) => Some(text.clone()),
        Zval::Bool(b) => if *b {
            Some(copy("true"))
        } else {
            Some(copy("false"))
        },
        _ => None,
    }
}

fn capped_string(v: &Zval, max: usize) -> (r: Option<String>)
    ensures
        opt_text(r) == capped(scalar_text(*v), max as nat),
{
    match zval_to_owned_string(v) {
        Some(text) => Some(cap(text.as_str(), max)),
        None => None,
    }
}

fn is_array(v: &Zval) -> (r: bool)
    ensures
        r == (*v is Array),
{
    match v {
        Zval::Array(_) => true,
        _ => false,
    }
}

fn is_table(v: &Zval) -> (r: bool)
    ensures
        r == (*v is Array || *v is Object),
{
    match v {
        Zval::Array(_) => true,
        Zval::Object(_) => true,
        _ => false,
    }
}

fn follow(v: &Zval) -> (r: &Zval)
    ensures
        *r == target(*v),
{
    match v {
        Zval::Reference(inner) => inner,
        _ => v,
    }
}

/// The place of the first entry under a text key.
pub open spec fn first_entry(t: Seq<(Key, Zval)>, key: Seq<char>, i: int) -> bool {
    0 <= i < t.len() && is_key(t[i].0, key) && forall|j: int|
        0 <= j < i ==> !is_key(#[trigger] t[j].0, key)
}

proof fn lemma_entry_at(t: Seq<(Key, Zval)>, key: Seq<char>, i: int)
    requires
        first_entry(t, key, i),
    ensures
        entry_at(t, key) == Some(t[i].1),
    decreases i,
{
    if i > 0 {
        assert(!is_key(t[0].0, key));
        let s = t.drop_first();
        assert forall|j: int| 0 <= j < i - 1 implies !is_key(#[trigger] s[j].0, key) by {
            assert(s[j] == t[j + 1]);
        }
        lemma_entry_at(s, key, i - 1);
    }
}

proof fn lemma_entry_none(t: Seq<(Key, Zval)>, key: Seq<char>)
    requires
        forall|j: int| 0 <= j < t.len() ==> !is_key(#[trigger] t[j].0, key),
    ensures
        entry_at(t, key) is None,
    decreases t.len(),
{
    if t.len() > 0 {
        let s = t.drop_first();
        assert(!is_key(t[0].0, key));
        assert forall|j: int| 0 <= j < s.len() implies !is_key(#[trigger] s[j].0, key) by {
            assert(s[j] == t[j + 1]);
        }
        lemma_entry_none(s, key);
    }
}

fn find_entry(t: &Vec<(Key, Zval)>, key: &str) -> (r: Option<usize>)
    ensures
        match r {
            Some(i) => first_entry(t@, key@, i as int) && entry_at(t@, key@) == Some(
                t@[i as int].1,
            ),
            None => entry_at(t@, key@) is None && forall|j: int|
                0 <= j < t@.len() ==> !is_key(#[trigger] t@[j].0, key@),
        },
{
    let mut i: usize = 0;
    while i < t.len()
        invariant
            i <= t@.len(),
            forall|j: int| 0 <= j < i ==> !is_key(#[trigger] t@[j].0, key@),
        decreases t@.len() - i,
    {
        let hit = match &t[i].0 {
            Key::Str(s) => same(s.as_str(), key),
            Key::Int(_) => false,
        };
        if hit {
            proof {
                lemma_entry_at(t@, key@, i as int);
            }
            return Some(i);
        }
        i = i + 1;
    }
    proof {
        lemma_entry_none(t@, key@);
    }
    None
}

fn find_index(t: &Vec<(Key, Zval)>, index: i64) -> (r: Option<&Zval>)
    ensures
        match r {
            Some(v) => entry_at_index(t@, index) == Some(*v),
            None => entry_at_index(t@, index) is None,
        },
{
    let mut i: usize = 0;
    assert(t@.skip(0) =~= t@);
    while i < t.len()
        invariant
            i <= t@.len(),
            entry_at_index(t@.skip(i as int), index) == entry_at_index(t@, index),
        decreases t@.len() - i,
    {
        assert(t@.skip(i as int)[0] == t@[i as int]);
        assert(t@.skip(i as int).drop_first() =~= t@.skip(i + 1));
        match &t[i].0 {
            Key::Int(k) => {
                if *k == index {
                    return Some(&t[i].1);
                }
            },
            Key::Str(_) => {},
        }
        i = i + 1;
    }
    None
}

fn has_nul(s: &str) -> (r: bool)
    ensures
        r == s@.contains('\0'),
{
    let v = crate::text::chars_of(s);
    let mut i: usize = 0;
    while i < v.len()
        invariant
            i <= v@.len(),
            v@ == s@,
            forall|j: int| 0 <= j < i ==> v@[j] != '\0',
        decreases v@.len() - i,
    {
        if v[i] == '\0' {
            assert(s@[i as int] == '\0');
            return true;
        }
        i = i + 1;
    }
    false
}

fn is_readable(object: &Object, name: &str) -> (r: bool)
    ensures
        r == object.readable(name@),
{
    object.classes.len() > 0 && !has_nul(name)
}

/// The place of the first property of a name.
pub open spec fn first_property(p: Seq<(String, Zval)>, name: Seq<char>, i: int) -> bool {
    0 <= i < p.len() && p[i].0@ == name && forall|j: int| 0 <= j < i ==> #[trigger] p[j].0@ != name
}

proof fn lemma_property_slot(p: Seq<(String, Zval)>, name: Seq<char>, i: int)
    requires
        first_property(p, name, i),
    ensures
        property_slot(p, name) == p[i].1,
    decreases i,
{
    if i > 0 {
        assert(p[0].0@ != name);
        let s = p.drop_first();
        assert forall|j: int| 0 <= j < i - 1 implies #[trigger] s[j].0@ != name by {
            assert(s[j] == p[j + 1]);
        }
        lemma_property_slot(s, name, i - 1);
    }
}

proof fn lemma_property_none(p: Seq<(String, Zval)>, name: Seq<char>)
    requires
        forall|j: int| 0 <= j < p.len() ==> #[trigger] p[j].0@ != name,
    ensures
        property_slot(p, name) == Zval::Undef,
    decreases p.len(),
{
    if p.len() > 0 {
        let s = p.drop_first();
        assert(p[0].0@ != name);
        assert forall|j: int| 0 <= j < s.len() implies #[trigger] s[j].0@ != name by {
            assert(s[j] == p[j + 1]);
        }
        lemma_property_none(s, name);
    }
}

fn find_property(object: &Object, name: &str) -> (r: Option<usize>)
    ensures
        match r {
            Some(i) => object.readable(name@) && first_property(
                object.properties@,
                name@,
                i as int,
            ) && property_slot(object.properties@, name@) == object.properties@[i as int].1,
            None => object.readable(name@) ==> property_slot(object.properties@, name@)
                == Zval::Undef,
        },
{
    if !is_readable(object, name) {
        return None;
    }
    let mut i: usize = 0;
    while i < object.properties.len()
        invariant
            i <= object.properties@.len(),
            object.readable(name@),
            forall|j: int| 0 <= j < i ==> #[trigger] object.properties@[j].0@ != name@,
        decreases object.properties@.len() - i,
    {
        if same(object.properties[i].0.as_str(), name) {
            proof {
                lemma_property_slot(object.properties@, name@, i as int);
            }
            return Some(i);
        }
        i = i + 1;
    }
    proof {
        lemma_property_none(object.properties@, name@);
    }
    None
}

fn read_object_property<'a>(object: &'a Object, name: &str) -> (r: Option<&'a Zval>)
    ensures
        match r {
            Some(v) => *v == object.property(name@),
            None => object.property(name@) == Zval::Undef,
        },
{
    match find_property(object, name) {
        Some(i) => Some(follow(&object.properties[i].1)),
        None => None,
    }
}

/// `Class::method`, or the plain function name outside a class.
pub open spec fn qualified(f: Function) -> Option<Seq<char>> {
    match (f.name, f.class) {
        (Some(name), Some(class)) => Some(class@ + "::"@ + name@),
        (Some(name), None) => Some(name@),
        (None, _) => None,
    }
}

/// The name a call is known by, when its function has one.
pub open spec fn call_name(call: Call) -> Option<Seq<char>> {
    match call.func {
        Some(f) => qualified(f),
        None => None,
    }
}

/// The name a call is known by.
pub fn function_name(call: &Call) -> (r: Option<String>)
    ensures
        opt_text(r) == call_name(*call),
{
    match &call.func {
        None => None,
        Some(f) => match &f.name {
            None => None,
            Some(name) => match &f.class {
                Some(class) => {
                    let mut out = copy(class.as_str());
                    out.append("::");
                    out.append(name.as_str());
                    Some(out)
                },
                None => Some(name.clone()),
            },
        },
    }
}

/// The address of the function's record.
pub fn function_ptr(call: &Call) -> (r: u64)
    ensures
        r == call.function,
{
    call.function
}

/// What identifies a function: its name, where it is defined, and whether the
/// engine or an extension owns it.
pub struct FunctionFacts {
    pub name: String,
    pub module: String,
    pub file: String,
    pub line: u32,
    pub internal: bool,
}

/// The file that defines a call's function: only PHP code has one.
pub open spec fn file_of(call: Call) -> Option<Seq<char>> {
    match call.func {
        Some(f) => match f.filename {
            Some(file) => if f.user && file@.len() > 0 {
                Some(file@)
            } else {
                None
            },
            None => None,
        },
        None => None,
    }
}

/// The word for where a function comes from: counted and sampled profiles use
/// the same one.
pub open spec fn origin_word(user: bool) -> Seq<char> {
    if user {
        "php"@
    } else {
        "internal"@
    }
}

/// Everything fixed about a call's function, read in one go.
pub fn function_facts(call: &Call) -> (r: Option<FunctionFacts>)
    ensures
        r is Some <==> call_name(*call) is Some,
        match r {
            Some(facts) => {
                let f = call.func->Some_0;
                &&& call_name(*call) == Some(facts.name@)
                &&& facts.internal == !f.user
                &&& facts.module@ == origin_word(f.user)
                &&& facts.file@ == match file_of(*call) {
                    Some(file) => file,
                    None => Seq::empty(),
                }
                &&& facts.line == if f.user {
                    f.line_start
                } else {
                    0
                }
            },
            None => true,
        },
{
    match &call.func {
        None => None,
        Some(f) => match function_name(call) {
            None => None,
            Some(name) => {
                if f.user {
                    let file = match defining_file(call) {
                        Some(file) => file,
                        None => String::new(),
                    };
                    Some(
                        FunctionFacts {
                            name,
                            module: copy("php"),
                            file,
                            line: f.line_start,
                            internal: false,
                        },
                    )
                } else {
                    Some(
                        FunctionFacts {
                            name,
                            module: copy("internal"),
                            file: String::new(),
                            line: 0,
                            internal: true,
                        },
                    )
                }
            },
        },
    }
}

/// The file that defines a call's function.
pub fn defining_file(call: &Call) -> (r: Option<String>)
    ensures
        opt_text(r) == file_of(*call),
{
    match &call.func {
        None => None,
        Some(f) => {
            if !f.user {
                return None;
            }
            match &f.filename {
                None => None,
                Some(file) => if file.as_str().is_empty() {
                    None
                } else {
                    Some(file.clone())
                },
            }
        },
    }
}

/// Whether the engine or an extension owns a call's function. A call with no
/// function counts as theirs.
pub open spec fn is_internal(call: Call) -> bool {
    match call.func {
        Some(f) => !f.user,
        None => true,
    }
}

/// Whether the engine or an extension owns a call's function.
pub fn is_internal_function(call: &Call) -> (r: bool)
    ensures
        r == is_internal(*call),
{
    match &call.func {
        Some(f) => !f.user,
        None => true,
    }
}

/// What is known of an exception.
pub struct ExceptionIdentity {
    pub class: String,
    pub message: Option<String>,
    pub code: Option<String>,
    pub file: Option<String>,
    pub line: Option<String>,
}

/// The object's own class.
pub open spec fn class_of(object: Object) -> Option<Seq<char>> {
    if object.classes@.len() > 0 {
        Some(object.classes@[0]@)
    } else {
        None
    }
}

/// The object's own class, not the class that declares a method it inherits.
pub fn object_class_name(object: &Object) -> (r: Option<String>)
    ensures
        opt_text(r) == class_of(*object),
{
    if object.classes.len() == 0 {
        None
    } else {
        Some(object.classes[0].clone())
    }
}

/// The text of a scalar property, with no reference followed.
pub open spec fn plain_text(object: Object, name: Seq<char>) -> Option<Seq<char>> {
    if object.readable(name) {
        scalar_text(property_slot(object.properties@, name))
    } else {
        None
    }
}

fn read_exception_property(exception: &Object, name: &str) -> (r: Option<String>)
    ensures
        opt_text(r) == plain_text(*exception, name@),
{
    match find_property(exception, name) {
        Some(i) => zval_to_owned_string(&exception.properties[i].1),
        None => None,
    }
}

/// Class, message, code, file and line of an exception. `None` only when the
/// object has no class.
pub fn exception_identity(exception: &Object) -> (r: Option<ExceptionIdentity>)
    ensures
        r is Some <==> class_of(*exception) is Some,
        match r {
            Some(id) => {
                &&& class_of(*exception) == Some(id.class@)
                &&& opt_text(id.message) == plain_text(*exception, "message"@)
                &&& opt_text(id.code) == plain_text(*exception, "code"@)
                &&& opt_text(id.file) == plain_text(*exception, "file"@)
                &&& opt_text(id.line) == plain_text(*exception, "line"@)
            },
            None => true,
        },
{
    match object_class_name(exception) {
        None => None,
        Some(class) => Some(
            ExceptionIdentity {
                class,
                message: read_exception_property(exception, "message"),
                code: read_exception_property(exception, "code"),
                file: read_exception_property(exception, "file"),
                line: read_exception_property(exception, "line"),
            },
        ),
    }
}

/// The handle of the object passed in a slot. A reference is not followed.
pub fn arg_object_handle(call: &Call, index: usize) -> (r: Option<u32>)
    ensures
        r == match call.arg(index as int) {
            Zval::Object(o) => Some(o.handle),
            _ => None,
        },
{
    if index >= call.args.len() {
        return None;
    }
    match &call.args[index] {
        Zval::Object(o) => Some(o.handle),
        _ => None,
    }
}

/// The object passed in a slot, directly or by reference.
pub fn arg_object(call: &Call, index: usize) -> (r: Option<&Object>)
    ensures
        match r {
            Some(o) => call.object_arg(index as int) == Some(*o),
            None => call.object_arg(index as int) is None,
        },
{
    if index >= call.args.len() {
        return None;
    }
    match follow(&call.args[index]) {
        Zval::Object(o) => Some(o),
        _ => None,
    }
}

/// How far up the parent chain a class test looks.
pub const MAX_CLASS_DEPTH: usize = 64;

/// Whether a class or one of its nearest parents has the given name.
pub open spec fn instance_of(object: Object, class: Seq<char>) -> bool {
    exists|i: int|
        0 <= i < object.classes@.len() && i < MAX_CLASS_DEPTH && #[trigger] object.classes@[i]@
            == class
}

/// Whether the object passed in a slot is of a class.
pub fn arg_is_instance_of(call: &Call, index: usize, class_name: &str) -> (r: bool)
    ensures
        r == match call.object_arg(index as int) {
            Some(o) => instance_of(o, class_name@),
            None => false,
        },
{
    match arg_object(call, index) {
        Some(o) => object_instance_of(o, class_name),
        None => false,
    }
}

/// Whether an object is of a class, its parents counted.
pub fn object_instance_of(object: &Object, class_name: &str) -> (r: bool)
    ensures
        r == instance_of(*object, class_name@),
{
    let mut i: usize = 0;
    while i < object.classes.len() && i < MAX_CLASS_DEPTH
        invariant
            i <= object.classes@.len(),
            i <= MAX_CLASS_DEPTH,
            forall|j: int| 0 <= j < i ==> #[trigger] object.classes@[j]@ != class_name@,
        decreases object.classes@.len() - i,
    {
        if same(object.classes[i].as_str(), class_name) {
            return true;
        }
        i = i + 1;
    }
    false
}

/// The handle of `$this`.
pub fn this_object_handle(call: &Call) -> (r: Option<u32>)
    ensures
        r == match call.this {
            Some(o) => Some(o.handle),
            None => None,
        },
{
    match &call.this {
        Some(o) => Some(o.handle),
        None => None,
    }
}

/// Whether a call returned `true` itself, not merely something truthy.
pub fn retval_is_true(retval: &Zval) -> (r: bool)
    ensures
        r == (*retval == Zval::Bool(true)),
{
    match retval {
        Zval::Bool(b) => *b,
        _ => false,
    }
}

/// The handle of the object a call returned.
pub fn retval_object_handle(retval: &Zval) -> (r: Option<u32>)
    ensures
        r == match *retval {
            Zval::Object(o) => Some(o.handle),
            _ => None,
        },
{
    match retval {
        Zval::Object(o) => Some(o.handle),
        _ => None,
    }
}

/// The object a call returned.
pub fn retval_object(retval: &Zval) -> (r: Option<&Object>)
    ensures
        match r {
            Some(o) => *retval == Zval::Object(Box::new(*o)),
            None => !(*retval is Object),
        },
{
    match retval {
        Zval::Object(o) => Some(o),
        _ => None,
    }
}

/// `$this`.
pub fn this_object(call: &Call) -> (r: Option<&Object>)
    ensures
        match r {
            Some(o) => call.this == Some(*o),
            None => call.this is None,
        },
{
    match &call.this {
        Some(o) => Some(o),
        None => None,
    }
}

/// The text of a scalar property, cut to `max` bytes.
pub fn object_property_string(object: &Object, name: &str, max: usize) -> (r: Option<String>)
    ensures
        opt_text(r) == capped(object.text(name@), max as nat),
{
    match read_object_property(object, name) {
        Some(v) => capped_string(v, max),
        None => None,
    }
}

fn copy_bytes(v: &Vec<u8>) -> (r: Vec<u8>)
    ensures
        r@ == v@,
{
    let mut out: Vec<u8> = Vec::new();
    out.extend_from_slice(v.as_slice());
    assert(out@ =~= v@);
    out
}

/// The bytes of a string value.
pub open spec fn raw_bytes(v: Zval) -> Option<Seq<u8>> {
    match v {
        Zval::Str(bytes) => Some(bytes@),
        _ => None,
    }
}

/// The bytes behind an optional byte list.
pub open spec fn opt_bytes(o: Option<Vec<u8>>) -> Option<Seq<u8>> {
    match o {
        Some(b) => Some(b@),
        None => None,
    }
}

/// The bytes of a string property, as they are.
pub fn object_property_bytes(object: &Object, name: &str) -> (r: Option<Vec<u8>>)
    ensures
        opt_bytes(r) == raw_bytes(object.property(name@)),
{
    match read_object_property(object, name) {
        Some(Zval::Str(bytes)) => Some(copy_bytes(bytes)),
        _ => None,
    }
}

/// A boolean property.
pub fn object_property_bool(object: &Object, name: &str) -> (r: Option<bool>)
    ensures
        r == match object.property(name@) {
            Zval::Bool(b) => Some(b),
            _ => None,
        },
{
    match read_object_property(object, name) {
        Some(Zval::Bool(b)) => Some(*b),
        _ => None,
    }
}

/// The object in a property.
pub fn object_property_object<'a>(object: &'a Object, name: &str) -> (r: Option<&'a Object>)
    ensures
        match r {
            Some(o) => object.object(name@) == Some(*o),
            None => object.object(name@) is None,
        },
{
    match read_object_property(object, name) {
        Some(Zval::Object(o)) => Some(o),
        _ => None,
    }
}

/// Whether an array property has an entry under a text key.
pub fn object_property_array_has_str_key(object: &Object, name: &str, key: &str) -> (r: bool)
    ensures
        r == match object.table(name@) {
            Some(t) => entry_at(t, key@) is Some,
            None => false,
        },
{
    match read_object_property(object, name) {
        Some(Zval::Array(t)) => find_entry(t, key).is_some(),
        _ => false,
    }
}

/// The text of a scalar under a key of an array property, cut to `max` bytes.
pub fn object_property_table_string(
    object: &Object,
    name: &str,
    key: &str,
    max: usize,
) -> (r: Option<String>)
    ensures
        opt_text(r) == capped(object.table_text(name@, key@), max as nat),
{
    match read_object_property(object, name) {
        Some(Zval::Array(t)) => match find_entry(t, key) {
            Some(i) => capped_string(&t[i].1, max),
            None => None,
        },
        _ => None,
    }
}

/// The bytes of the string passed in a slot, directly or by reference.
pub fn arg_string_bytes(call: &Call, index: usize) -> (r: Option<Vec<u8>>)
    ensures
        opt_bytes(r) == raw_bytes(target(call.arg(index as int))),
{
    if index >= call.args.len() {
        return None;
    }
    match follow(&call.args[index]) {
        Zval::Str(bytes) => Some(copy_bytes(bytes)),
        _ => None,
    }
}

/// The text of a scalar under a key of a value, when that value is an array.
pub open spec fn keyed_text(v: Zval, key: Seq<char>) -> Option<Seq<char>> {
    match v {
        Zval::Array(t) => match entry_at(t@, key) {
            Some(e) => scalar_text(e),
            None => None,
        },
        _ => None,
    }
}

/// The text of a scalar under a key of the array passed in a slot.
pub fn arg_array_str_key_string(call: &Call, index: usize, key: &str, max: usize) -> (r: Option<
    String,
>)
    ensures
        opt_text(r) == capped(keyed_text(target(call.arg(index as int)), key@), max as nat),
{
    if index >= call.args.len() {
        return None;
    }
    match follow(&call.args[index]) {
        Zval::Array(t) => match find_entry(t, key) {
            Some(i) => capped_string(&t[i].1, max),
            None => None,
        },
        _ => None,
    }
}

/// The integer passed in a slot.
pub fn arg_long(call: &Call, index: usize) -> (r: Option<i64>)
    ensures
        r == match call.arg(index as int) {
            Zval::Long(n) => Some(n),
            _ => None,
        },
{
    if index >= call.args.len() {
        return None;
    }
    match &call.args[index] {
        Zval::Long(n) => Some(*n),
        _ => None,
    }
}

/// How many bytes of a scalar result are kept.
pub const MAX_SCALAR_BYTES: usize = 512;

/// A scalar as text, cut to `MAX_SCALAR_BYTES`.
pub fn scalar_to_string(v: &Zval) -> (r: Option<String>)
    ensures
        opt_text(r) == capped(scalar_text(*v), MAX_SCALAR_BYTES as nat),
{
    capped_string(v, MAX_SCALAR_BYTES)
}

/// The scalar passed in a slot as text, cut to `max` bytes. A reference is not
/// followed.
pub fn arg_scalar_string(call: &Call, index: usize, max: usize) -> (r: Option<String>)
    ensures
        opt_text(r) == capped(scalar_text(call.arg(index as int)), max as nat),
{
    if index >= call.args.len() {
        return None;
    }
    capped_string(&call.args[index], max)
}

/// How many values of one header array are read.
pub const MAX_ARRAY_VALUES: usize = 64;

/// The scalars of a table as text, in order, up to `MAX_ARRAY_VALUES` of them.
pub open spec fn scalar_values(t: Seq<(Key, Zval)>) -> Seq<Seq<char>>
    decreases t.len(),
{
    if t.len() == 0 {
        Seq::empty()
    } else {
        let before = scalar_values(t.drop_last());
        match scalar_text(t.last().1) {
            Some(s) => if before.len() >= MAX_ARRAY_VALUES {
                before
            } else {
                before.push(s)
            },
            None => before,
        }
    }
}

/// The texts of an optional list.
pub open spec fn opt_texts(o: Option<Vec<String>>) -> Option<Seq<Seq<char>>> {
    match o {
        Some(v) => Some(crate::text::texts(v@)),
        None => None,
    }
}

proof fn lemma_scalar_values_full(t: Seq<(Key, Zval)>, k: int)
    requires
        0 <= k <= t.len(),
        scalar_values(t.take(k)).len() >= MAX_ARRAY_VALUES,
    ensures
        scalar_values(t) == scalar_values(t.take(k)),
    decreases t.len() - k,
{
    if k == t.len() {
        assert(t.take(k) =~= t);
    } else {
        assert(t.take(k + 1).drop_last() =~= t.take(k));
        lemma_scalar_values_full(t, k + 1);
    }
}

fn array_string_values(t: &Vec<(Key, Zval)>) -> (r: Vec<String>)
    ensures
        crate::text::texts(r@) == scalar_values(t@),
        r@.len() <= MAX_ARRAY_VALUES,
{
    let mut out: Vec<String> = Vec::new();
    let mut i: usize = 0;
    assert(crate::text::texts(out@) =~= scalar_values(t@.take(0)));
    while i < t.len()
        invariant
            i <= t@.len(),
            crate::text::texts(out@) == scalar_values(t@.take(i as int)),
            out@.len() < MAX_ARRAY_VALUES,
        decreases t@.len() - i,
    {
        assert(t@.take(i + 1).drop_last() =~= t@.take(i as int));
        assert(t@.take(i + 1).last() == t@[i as int]);
        let ghost before = crate::text::texts(out@);
        if let Some(s) = zval_to_owned_string(&t[i].1) {
            let ghost text = s@;
            out.push(s);
            assert(crate::text::texts(out@) =~= before.push(text));
        }
        i = i + 1;
        if out.len() >= MAX_ARRAY_VALUES {
            proof {
                lemma_scalar_values_full(t@, i as int);
            }
            return out;
        }
    }
    assert(t@.take(t@.len() as int) =~= t@);
    out
}

/// The scalars of a value as text, when it is an array.
pub open spec fn values_of(v: Zval) -> Option<Seq<Seq<char>>> {
    match v {
        Zval::Array(t) => Some(scalar_values(t@)),
        _ => None,
    }
}

/// The texts in the array passed in a slot.
pub fn arg_string_array(call: &Call, index: usize) -> (r: Option<Vec<String>>)
    ensures
        opt_texts(r) == values_of(call.arg(index as int)),
{
    if index >= call.args.len() {
        return None;
    }
    match &call.args[index] {
        Zval::Array(t) => Some(array_string_values(t)),
        _ => None,
    }
}

/// The texts in the array under an integer key of the array passed in a slot.
pub fn arg_array_key_string_array(call: &Call, index: usize, key: i64) -> (r: Option<Vec<String>>)
    ensures
        opt_texts(r) == match call.arg(index as int) {
            Zval::Array(t) => match entry_at_index(t@, key) {
                Some(v) => values_of(v),
                None => None,
            },
            _ => None,
        },
{
    if index >= call.args.len() {
        return None;
    }
    match &call.args[index] {
        Zval::Array(t) => match find_index(t, key) {
            Some(Zval::Array(inner)) => Some(array_string_values(inner)),
            _ => None,
        },
        _ => None,
    }
}

/// The bytes of the string a call returned, directly or by reference.
pub fn retval_string_bytes(retval: &Zval) -> (r: Option<Vec<u8>>)
    ensures
        opt_bytes(r) == raw_bytes(target(*retval)),
{
    match follow(retval) {
        Zval::Str(bytes) => Some(copy_bytes(bytes)),
        _ => None,
    }
}

/// An integer property.
pub fn object_property_long(object: &Object, name: &str) -> (r: Option<i64>)
    ensures
        r == match object.property(name@) {
            Zval::Long(n) => Some(n),
            _ => None,
        },
{
    match read_object_property(object, name) {
        Some(Zval::Long(n)) => Some(*n),
        _ => None,
    }
}

/// How many entries the array a call returned has.
pub fn retval_array_len(retval: &Zval) -> (r: Option<usize>)
    ensures
        match (r, *retval) {
            (Some(n), Zval::Array(t)) => n == t@.len(),
            (None, Zval::Array(t)) => false,
            (Some(n), _) => false,
            (None, _) => true,
        },
{
    match retval {
        Zval::Array(t) => Some(t.len()),
        _ => None,
    }
}

/// The text under a key of an AMQP header table: the value itself, or the
/// second element of a `[type, value]` pair.
pub open spec fn header_in(t: Seq<(Key, Zval)>, key: Seq<char>) -> Option<Seq<char>> {
    match entry_at(t, key) {
        None => None,
        Some(Zval::Array(pair)) => match entry_at_index(pair@, 1) {
            Some(v) => scalar_text(v),
            None => None,
        },
        Some(v) => scalar_text(v),
    }
}

/// The AMQP application headers of a message: an array, or the array inside a
/// table object.
pub open spec fn application_headers(message: Object) -> Option<Seq<(Key, Zval)>> {
    match message.table("properties"@) {
        None => None,
        Some(p) => match entry_at(p, "application_headers"@) {
            Some(Zval::Array(t)) => Some(t@),
            Some(Zval::Object(o)) => o.table("data"@),
            _ => None,
        },
    }
}

/// A message's application header.
pub open spec fn application_header(message: Object, key: Seq<char>) -> Option<Seq<char>> {
    match application_headers(message) {
        Some(t) => header_in(t, key),
        None => None,
    }
}

fn amqp_read_header_from_array(t: &Vec<(Key, Zval)>, key: &str, max: usize) -> (r: Option<String>)
    ensures
        opt_text(r) == capped(header_in(t@, key@), max as nat),
{
    match find_entry(t, key) {
        None => None,
        Some(i) => match &t[i].1 {
            Zval::Array(pair) => match find_index(pair, 1) {
                Some(v) => capped_string(v, max),
                None => None,
            },
            v => capped_string(v, max),
        },
    }
}

/// A message's application header as text, cut to `max` bytes.
pub fn amqp_application_header(message: &Object, key: &str, max: usize) -> (r: Option<String>)
    ensures
        opt_text(r) == capped(application_header(*message, key@), max as nat),
{
    match read_object_property(message, "properties") {
        Some(Zval::Array(p)) => match find_entry(p, "application_headers") {
            None => None,
            Some(i) => match &p[i].1 {
                Zval::Array(t) => amqp_read_header_from_array(t, key, max),
                Zval::Object(o) => match read_object_property(o, "data") {
                    Some(Zval::Array(t)) => amqp_read_header_from_array(t, key, max),
                    _ => None,
                },
                _ => None,
            },
        },
        _ => None,
    }
}

/// How a header value is stored: the text alone, an AMQP `['S', text]` pair,
/// or an AMQP table's `[14, text]` pair.
#[derive(Clone, Copy)]
pub enum Shape {
    Plain,
    Symbol,
    TypedLong,
}

/// The type tag of a long string in an AMQP table.
pub const AMQP_T_STRING_LONG: i64 = 14;

/// Whether a value is a two-element list of a tag and a text.
pub open spec fn is_pair(v: Zval, value: Seq<char>, tagged: spec_fn(Zval) -> bool) -> bool {
    match v {
        Zval::Array(p) => {
            &&& p@.len() == 2
            &&& p@[0].0 == Key::Int(0)
            &&& tagged(p@[0].1)
            &&& p@[1].0 == Key::Int(1)
            &&& raw_bytes(p@[1].1) == Some(encode_utf8(value))
        },
        _ => false,
    }
}

/// Whether a value stores a text in a shape.
pub open spec fn stores(v: Zval, value: Seq<char>, shape: Shape) -> bool {
    match shape {
        Shape::Plain => raw_bytes(v) == Some(encode_utf8(value)),
        Shape::Symbol => is_pair(v, value, |t: Zval| raw_bytes(t) == Some(encode_utf8("S"@))),
        Shape::TypedLong => is_pair(v, value, |t: Zval| t == Zval::Long(AMQP_T_STRING_LONG)),
    }
}

/// Whether a list of pairs has one under a key.
pub open spec fn has_pair(s: Seq<(Seq<char>, Seq<char>)>, key: Seq<char>) -> bool {
    exists|i: int| 0 <= i < s.len() && #[trigger] s[i].0 == key
}

/// The entries whose keys a table lacks, the first of each key.
pub open spec fn missing(
    t: Seq<(Key, Zval)>,
    entries: Seq<(Seq<char>, Seq<char>)>,
) -> Seq<(Seq<char>, Seq<char>)>
    decreases entries.len(),
{
    if entries.len() == 0 {
        Seq::empty()
    } else {
        let before = missing(t, entries.drop_last());
        let e = entries.last();
        if entry_at(t, e.0) is Some || has_pair(before, e.0) {
            before
        } else {
            before.push(e)
        }
    }
}

/// Whether `new` is `old` followed by exactly the entries that it lacked.
pub open spec fn grown(
    old_t: Seq<(Key, Zval)>,
    new_t: Seq<(Key, Zval)>,
    entries: Seq<(Seq<char>, Seq<char>)>,
    shape: Shape,
) -> bool {
    let added = missing(old_t, entries);
    &&& new_t.len() == old_t.len() + added.len()
    &&& new_t.take(old_t.len() as int) == old_t
    &&& forall|i: int|
        0 <= i < added.len() ==> is_key(
            (#[trigger] new_t[old_t.len() + i]).0,
            added[i].0,
        ) && stores(new_t[old_t.len() + i].1, added[i].1, shape)
}

fn stored(value: &str, shape: Shape) -> (r: Zval)
    ensures
        stores(r, value@, shape),
{
    let text = Zval::Str(bytes_of(value));
    match shape {
        Shape::Plain => text,
        Shape::Symbol => {
            let mut p: Vec<(Key, Zval)> = Vec::new();
            p.push((Key::Int(0), Zval::Str(bytes_of("S"))));
            p.push((Key::Int(1), text));
            Zval::Array(p)
        },
        Shape::TypedLong => {
            let mut p: Vec<(Key, Zval)> = Vec::new();
            p.push((Key::Int(0), Zval::Long(AMQP_T_STRING_LONG)));
            p.push((Key::Int(1), text));
            Zval::Array(p)
        },
    }
}

fn add_absent(t: &mut Vec<(Key, Zval)>, entries: &Vec<(String, String)>, shape: Shape)
    ensures
        grown(old(t)@, final(t)@, crate::text::pairs(entries@), shape),
{
    let ghost base = t@;
    let ghost want = crate::text::pairs(entries@);
    let mut i: usize = 0;
    assert(want.take(0) =~= Seq::empty());
    assert(t@.take(base.len() as int) =~= base);
    while i < entries.len()
        invariant
            i <= entries@.len(),
            want == crate::text::pairs(entries@),
            grown(base, t@, want.take(i as int), shape),
        decreases entries@.len() - i,
    {
        let ghost added = missing(base, want.take(i as int));
        let ghost n = base.len() as int;
        let ghost key = entries@[i as int].0@;
        assert(want.take(i + 1).drop_last() =~= want.take(i as int));
        assert(want.take(i + 1).last() == want[i as int]);
        let ghost before = t@;
        match find_entry(t, entries[i].0.as_str()) {
            Some(k) => {
                proof {
                    if k < n {
                        assert forall|j: int| 0 <= j < k implies !is_key(
                            #[trigger] base[j].0,
                            key,
                        ) by {
                            assert(base[j] == t@.take(n)[j]);
                            assert(t@[j] == base[j]);
                        }
                        assert(base[k as int] == t@.take(n)[k as int]);
                        lemma_entry_at(base, key, k as int);
                    } else {
                        assert(t@[n + (k - n)] == t@[k as int]);
                        assert(is_key(t@[n + (k - n)].0, added[k - n].0));
                        assert(added[k - n].0 == key);
                    }
                }
            },
            None => {
                proof {
                    assert forall|j: int| 0 <= j < base.len() implies !is_key(
                        #[trigger] base[j].0,
                        key,
                    ) by {
                        assert(base[j] == t@.take(n)[j]);
                        assert(t@[j] == base[j]);
                    }
                    lemma_entry_none(base, key);
                    assert forall|j: int| 0 <= j < added.len() implies #[trigger] added[j].0
                        != key by {
                        assert(is_key(t@[n + j].0, added[j].0));
                    }
                }
                t.push(
                    (
                        Key::Str(entries[i].0.clone()),
                        stored(entries[i].1.as_str(), shape),
                    ),
                );
                assert(t@.take(n) =~= before.take(n));
                assert forall|j: int| 0 <= j < added.len() + 1 implies is_key(
                    (#[trigger] t@[n + j]).0,
                    added.push(want[i as int])[j].0,
                ) && stores(t@[n + j].1, added.push(want[i as int])[j].1, shape) by {
                    if j < added.len() {
                        assert(t@[n + j] == before[n + j]);
                    }
                }
            },
        }
        i = i + 1;
    }
    assert(want.take(want.len() as int) =~= want);
}

/// What adding entries to the array passed in a slot does to a call. A reason is
/// given exactly when nothing was written.
pub open spec fn arg_injected(
    before: Call,
    after: Call,
    index: int,
    entries: Seq<(Seq<char>, Seq<char>)>,
    refused: Option<Seq<char>>,
) -> bool {
    &&& after.function == before.function
    &&& after.func == before.func
    &&& after.this == before.this
    &&& after.args@.len() == before.args@.len()
    &&& forall|j: int|
        0 <= j < before.args@.len() && j != index ==> #[trigger] after.args@[j] == before.args@[j]
    &&& match target(before.arg(index)) {
        Zval::Array(old_t) => {
            &&& refused is None
            &&& target(after.arg(index)) matches Zval::Array(new_t)
            &&& (before.arg(index) is Reference) == (after.arg(index) is Reference)
            &&& grown(old_t@, new_t@, entries, Shape::Plain)
        },
        _ => {
            &&& after.args@ == before.args@
            &&& refused == Some(
                if index >= before.args@.len() {
                    "headers argument not passed"@
                } else {
                    "headers argument is not an array"@
                },
            )
        },
    }
}

/// The reason of a refusal.
pub open spec fn reason_of(r: Result<(), &'static str>) -> Option<Seq<char>> {
    match r {
        Ok(_) => None,
        Err(e) => Some(e@),
    }
}

/// Add entries to the array passed in a slot, directly or by reference. Keys
/// that are there already keep their values.
pub fn inject_array_entries(call: &mut Call, index: usize, entries: &Vec<(String, String)>) -> (r:
    Result<(), &'static str>)
    ensures
        arg_injected(
            *old(call),
            *final(call),
            index as int,
            crate::text::pairs(entries@),
            reason_of(r),
        ),
{
    if index >= call.args.len() {
        return Err("headers argument not passed");
    }
    if !is_array(follow(&call.args[index])) {
        return Err("headers argument is not an array");
    }
    match &mut call.args[index] {
        Zval::Array(t) => {
            add_absent(t, entries, Shape::Plain);
            Ok(())
        },
        Zval::Reference(inner) => match &mut **inner {
            Zval::Array(t) => {
                add_absent(t, entries, Shape::Plain);
                Ok(())
            },
            _ => Err("headers argument is not an array"),
        },
        _ => Err("headers argument is not an array"),
    }
}

/// Whether only the named property of an object may have changed, and it is a
/// reference exactly when it was one.
pub open spec fn same_but_for(before: Object, after: Object, name: Seq<char>) -> bool {
    &&& after.handle == before.handle
    &&& after.classes == before.classes
    &&& after.properties@.len() == before.properties@.len()
    &&& forall|j: int|
        0 <= j < before.properties@.len() ==> (#[trigger] after.properties@[j]).0
            == before.properties@[j].0
    &&& forall|j: int|
        0 <= j < before.properties@.len() ==> ((#[trigger] after.properties@[j]).1 is Reference) == (
        before.properties@[j].1 is Reference)
    &&& forall|j: int|
        0 <= j < before.properties@.len() && !first_property(before.properties@, name, j)
            ==> #[trigger] after.properties@[j] == before.properties@[j]
}

/// What adding entries to an array property does to an object. One of two
/// reasons is given exactly when nothing was written.
pub open spec fn property_injected(
    before: Object,
    after: Object,
    name: Seq<char>,
    entries: Seq<(Seq<char>, Seq<char>)>,
    shape: Shape,
    unreadable: Seq<char>,
    not_array: Seq<char>,
    refused: Option<Seq<char>>,
) -> bool {
    &&& same_but_for(before, after, name)
    &&& match before.table(name) {
        Some(old_t) => {
            &&& refused is None
            &&& after.table(name) matches Some(new_t)
            &&& grown(old_t, new_t, entries, shape)
        },
        None => {
            &&& after == before
            &&& refused == Some(
                if before.readable(name) {
                    not_array
                } else {
                    unreadable
                },
            )
        },
    }
}

/// What adding headers to an array property of headers does to an object.
pub open spec fn headers_injected(
    before: Object,
    after: Object,
    name: Seq<char>,
    entries: Seq<(Seq<char>, Seq<char>)>,
    refused: Option<Seq<char>>,
) -> bool {
    property_injected(
        before,
        after,
        name,
        entries,
        Shape::Plain,
        "headers property not passed"@,
        "headers property is not an array"@,
        refused,
    )
}

/// Add entries to an array property. Keys that are there already keep their
/// values.
pub fn inject_property_array_entries(
    object: &mut Object,
    property: &str,
    entries: &Vec<(String, String)>,
) -> (r: Result<(), &'static str>)
    ensures
        headers_injected(
            *old(object),
            *final(object),
            property@,
            crate::text::pairs(entries@),
            reason_of(r),
        ),
{
    inject_property(object, property, entries, Shape::Plain, "headers property not passed",
        "headers property is not an array")
}

fn inject_property(
    object: &mut Object,
    property: &str,
    entries: &Vec<(String, String)>,
    shape: Shape,
    unreadable: &'static str,
    not_array: &'static str,
) -> (r: Result<(), &'static str>)
    ensures
        property_injected(
            *old(object),
            *final(object),
            property@,
            crate::text::pairs(entries@),
            shape,
            unreadable@,
            not_array@,
            reason_of(r),
        ),
{
    if !is_readable(object, property) {
        return Err(unreadable);
    }
    let i = match find_property(object, property) {
        Some(i) => i,
        None => {
            return Err(not_array);
        },
    };
    if !is_array(follow(&object.properties[i].1)) {
        return Err(not_array);
    }
    let ghost before = *object;
    match &mut object.properties[i].1 {
        Zval::Array(t) => {
            add_absent(t, entries, shape);
        },
        Zval::Reference(inner) => match &mut **inner {
            Zval::Array(t) => {
                add_absent(t, entries, shape);
            },
            _ => {},
        },
        _ => {},
    }
    proof {
        assert(first_property(before.properties@, property@, i as int));
        assert forall|j: int| 0 <= j < i implies #[trigger] object.properties@[j].0@
            != property@ by {
            assert(object.properties@[j] == before.properties@[j]);
        }
        lemma_property_slot(object.properties@, property@, i as int);
        assert forall|j: int|
            0 <= j < before.properties@.len() && !first_property(
                before.properties@,
                property@,
                j,
            ) implies #[trigger] object.properties@[j] == before.properties@[j] by {
            assert(j != i);
        }
    }
    Ok(())
}

/// A list of pairs where a later value under a key replaces the earlier one in
/// its place.
pub open spec fn overlaid(entries: Seq<(Seq<char>, Seq<char>)>) -> Seq<(Seq<char>, Seq<char>)>
    decreases entries.len(),
{
    if entries.len() == 0 {
        Seq::empty()
    } else {
        let before = overlaid(entries.drop_last());
        let e = entries.last();
        if has_pair(before, e.0) {
            before.map_values(
                |q: (Seq<char>, Seq<char>)|
                    if q.0 == e.0 {
                        e
                    } else {
                        q
                    },
            )
        } else {
            before.push(e)
        }
    }
}

proof fn lemma_overlaid_distinct(entries: Seq<(Seq<char>, Seq<char>)>)
    ensures
        forall|i: int, j: int|
            0 <= i < j < overlaid(entries).len() ==> (#[trigger] overlaid(entries)[i]).0 != (
            #[trigger] overlaid(entries)[j]).0,
    decreases entries.len(),
{
    if entries.len() > 0 {
        lemma_overlaid_distinct(entries.drop_last());
        let before = overlaid(entries.drop_last());
        let e = entries.last();
        assert forall|i: int, j: int| 0 <= i < j < overlaid(entries).len() implies (
        #[trigger] overlaid(entries)[i]).0 != (#[trigger] overlaid(entries)[j]).0 by {
            if has_pair(before, e.0) {
                assert(overlaid(entries)[i].0 == before[i].0);
                assert(overlaid(entries)[j].0 == before[j].0);
            }
        }
    }
}

/// Whether a table holds exactly the given pairs, in order, in a shape.
pub open spec fn holds_pairs(
    t: Seq<(Key, Zval)>,
    s: Seq<(Seq<char>, Seq<char>)>,
    shape: Shape,
) -> bool {
    &&& t.len() == s.len()
    &&& forall|i: int|
        0 <= i < s.len() ==> is_key((#[trigger] t[i]).0, s[i].0) && stores(t[i].1, s[i].1, shape)
}

fn fresh_table(entries: &Vec<(String, String)>, shape: Shape) -> (r: Vec<(Key, Zval)>)
    ensures
        holds_pairs(r@, overlaid(crate::text::pairs(entries@)), shape),
{
    let ghost want = crate::text::pairs(entries@);
    let mut t: Vec<(Key, Zval)> = Vec::new();
    let mut i: usize = 0;
    assert(want.take(0) =~= Seq::empty());
    while i < entries.len()
        invariant
            i <= entries@.len(),
            want == crate::text::pairs(entries@),
            holds_pairs(t@, overlaid(want.take(i as int)), shape),
        decreases entries@.len() - i,
    {
        let ghost before = t@;
        let ghost laid = overlaid(want.take(i as int));
        let ghost e = want[i as int];
        proof {
            lemma_overlaid_distinct(want.take(i as int));
            assert(want.take(i + 1).drop_last() =~= want.take(i as int));
            assert(want.take(i + 1).last() == e);
        }
        match find_entry(&t, entries[i].0.as_str()) {
            Some(k) => {
                assert(is_key(t@[k as int].0, laid[k as int].0));
                assert(laid[k as int].0 == e.0);
                t.set(
                    k,
                    (
                        Key::Str(entries[i].0.clone()),
                        stored(entries[i].1.as_str(), shape),
                    ),
                );
                assert forall|j: int| 0 <= j < laid.len() implies is_key(
                    (#[trigger] t@[j]).0,
                    overlaid(want.take(i + 1))[j].0,
                ) && stores(t@[j].1, overlaid(want.take(i + 1))[j].1, shape) by {
                    if j != k {
                        assert(t@[j] == before[j]);
                        if j < k {
                            assert(laid[j].0 != laid[k as int].0);
                        } else {
                            assert(laid[k as int].0 != laid[j].0);
                        }
                    }
                }
            },
            None => {
                assert forall|j: int| 0 <= j < laid.len() implies #[trigger] laid[j].0 != e.0 by {
                    assert(is_key(t@[j].0, laid[j].0));
                }
                t.push(
                    (
                        Key::Str(entries[i].0.clone()),
                        stored(entries[i].1.as_str(), shape),
                    ),
                );
                assert forall|j: int| 0 <= j < laid.len() + 1 implies is_key(
                    (#[trigger] t@[j]).0,
                    laid.push(e)[j].0,
                ) && stores(t@[j].1, laid.push(e)[j].1, shape) by {
                    if j < laid.len() {
                        assert(t@[j] == before[j]);
                    }
                }
            },
        }
        i = i + 1;
    }
    assert(want.take(want.len() as int) =~= want);
    t
}

/// Whether only the first entry under a key of a table may have changed.
pub open spec fn same_but_at(
    before: Seq<(Key, Zval)>,
    after: Seq<(Key, Zval)>,
    key: Seq<char>,
) -> bool {
    &&& after.len() == before.len()
    &&& forall|j: int| 0 <= j < before.len() ==> (#[trigger] after[j]).0 == before[j].0
    &&& forall|j: int|
        0 <= j < before.len() && !first_entry(before, key, j) ==> #[trigger] after[j] == before[j]
}

/// What writing application headers does to a message's `properties` table.
/// A reason is given exactly when nothing was written.
pub open spec fn headers_written(
    before: Seq<(Key, Zval)>,
    after: Seq<(Key, Zval)>,
    entries: Seq<(Seq<char>, Seq<char>)>,
    refused: Option<Seq<char>>,
) -> bool {
    let key = "application_headers"@;
    match entry_at(before, key) {
        None => {
            &&& refused is None
            &&& after.len() == before.len() + 1
            &&& after.take(before.len() as int) == before
            &&& is_key(after.last().0, key)
            &&& after.last().1 matches Zval::Array(t)
            &&& holds_pairs(t@, overlaid(entries), Shape::Symbol)
        },
        Some(Zval::Array(t0)) => {
            &&& refused is None
            &&& same_but_at(before, after, key)
            &&& entry_at(after, key) matches Some(Zval::Array(t1))
            &&& grown(t0@, t1@, entries, Shape::Symbol)
        },
        Some(Zval::Object(o0)) => {
            &&& same_but_at(before, after, key)
            &&& entry_at(after, key) matches Some(Zval::Object(o1))
            &&& property_injected(
                *o0,
                *o1,
                "data"@,
                entries,
                Shape::TypedLong,
                "AMQPTable data not readable"@,
                "AMQPTable data is not an array"@,
                refused,
            )
        },
        Some(_) => {
            &&& refused == Some("application_headers is neither array nor object"@)
            &&& after == before
        },
    }
}

fn inject_headers_into(p: &mut Vec<(Key, Zval)>, entries: &Vec<(String, String)>) -> (r: Result<
    (),
    &'static str,
>)
    ensures
        headers_written(old(p)@, final(p)@, crate::text::pairs(entries@), reason_of(r)),
{
    let ghost before = p@;
    let ghost key = "application_headers"@;
    let i = match find_entry(p, "application_headers") {
        None => {
            let table = fresh_table(entries, Shape::Symbol);
            p.push((Key::Str(copy("application_headers")), Zval::Array(table)));
            assert(p@.take(before.len() as int) =~= before);
            return Ok(());
        },
        Some(i) => i,
    };
    if !is_table(&p[i].1) {
        return Err("application_headers is neither array nor object");
    }
    let r = match &mut p[i].1 {
        Zval::Array(t) => {
            add_absent(t, entries, Shape::Symbol);
            Ok(())
        },
        Zval::Object(o) => inject_amqp_table_data(&mut **o, entries),
        _ => Ok(()),
    };
    proof {
        assert forall|j: int| 0 <= j < i implies !is_key(#[trigger] p@[j].0, key) by {
            assert(p@[j] == before[j]);
        }
        lemma_entry_at(p@, key, i as int);
        assert forall|j: int|
            0 <= j < before.len() && !first_entry(before, key, j) implies #[trigger] p@[j]
            == before[j] by {
            assert(j != i);
        }
    }
    r
}

fn inject_amqp_table_data(table: &mut Object, entries: &Vec<(String, String)>) -> (r: Result<
    (),
    &'static str,
>)
    ensures
        property_injected(
            *old(table),
            *final(table),
            "data"@,
            crate::text::pairs(entries@),
            Shape::TypedLong,
            "AMQPTable data not readable"@,
            "AMQPTable data is not an array"@,
            reason_of(r),
        ),
{
    inject_property(table, "data", entries, Shape::TypedLong, "AMQPTable data not readable",
        "AMQPTable data is not an array")
}

/// What adding application headers does to an AMQP message.
pub open spec fn message_injected(
    before: Object,
    after: Object,
    entries: Seq<(Seq<char>, Seq<char>)>,
    refused: Option<Seq<char>>,
) -> bool {
    &&& same_but_for(before, after, "properties"@)
    &&& match before.table("properties"@) {
        Some(old_t) => {
            &&& after.table("properties"@) matches Some(new_t)
            &&& headers_written(old_t, new_t, entries, refused)
        },
        None => {
            &&& after == before
            &&& refused == Some(
                if before.readable("properties"@) {
                    "properties is not an array"@
                } else {
                    "properties not readable"@
                },
            )
        },
    }
}

/// Add application headers to an AMQP message. They stand under
/// `application_headers` in its `properties`: a new array when there is none,
/// the array that is there, or the array inside a table object.
pub fn inject_amqp_application_headers(message: &mut Object, entries: &Vec<(String, String)>) -> (r:
    Result<(), &'static str>)
    ensures
        message_injected(
            *old(message),
            *final(message),
            crate::text::pairs(entries@),
            reason_of(r),
        ),
{
    if !is_readable(message, "properties") {
        return Err("properties not readable");
    }
    let i = match find_property(message, "properties") {
        Some(i) => i,
        None => {
            return Err("properties is not an array");
        },
    };
    if !is_array(follow(&message.properties[i].1)) {
        return Err("properties is not an array");
    }
    let ghost before = *message;
    let ghost name = "properties"@;
    let r = match &mut message.properties[i].1 {
        Zval::Array(p) => inject_headers_into(p, entries),
        Zval::Reference(inner) => match &mut **inner {
            Zval::Array(p) => inject_headers_into(p, entries),
            _ => Ok(()),
        },
        _ => Ok(()),
    };
    proof {
        assert(first_property(before.properties@, name, i as int));
        assert forall|j: int| 0 <= j < i implies #[trigger] message.properties@[j].0@ != name by {
            assert(message.properties@[j] == before.properties@[j]);
        }
        lemma_property_slot(message.properties@, name, i as int);
        assert forall|j: int|
            0 <= j < before.properties@.len() && !first_property(
                before.properties@,
                name,
                j,
            ) implies #[trigger] message.properties@[j] == before.properties@[j] by {
            assert(j != i);
        }
    }
    r
}

/// `String::from_utf8` hands the text back when the bytes are valid UTF-8, and
/// only then.
#[verifier::external_body]
fn utf8_text(bytes: Vec<u8>) -> (r: Option<String>)
    ensures
        opt_text(r) == if valid_utf8(bytes@) {
            Some(decode_utf8(bytes@))
        } else {
            None
        },
{
    String::from_utf8(bytes).ok()
}

/// The text of a string value that is valid UTF-8, directly or by reference.
pub open spec fn strict_text(v: Zval) -> Option<Seq<char>> {
    match target(v) {
        Zval::Str(bytes) => if valid_utf8(bytes@) {
            Some(decode_utf8(bytes@))
        } else {
            None
        },
        _ => None,
    }
}

/// The text of a string value that is valid UTF-8.
pub fn strict_string(v: &Zval) -> (r: Option<String>)
    ensures
        opt_text(r) == strict_text(*v),
{
    match follow(v) {
        Zval::Str(bytes) => utf8_text(copy_bytes(bytes)),
        _ => None,
    }
}

/// The string a call returned, when it is a non-empty text.
pub fn string_retval(retval: &Zval) -> (r: Option<String>)
    ensures
        opt_text(r) == nonempty(strict_text(*retval)),
{
    match strict_string(retval) {
        Some(s) => if s.as_str().is_empty() {
            None
        } else {
            Some(s)
        },
        None => None,
    }
}

/// How many bytes of an effective URL are kept.
pub const MAX_URL_BYTES: usize = 512;

/// The URL in what `curl_getinfo` answered for it. An empty answer is none.
pub fn curl_effective_url(answer: &Zval) -> (r: Option<String>)
    ensures
        opt_text(r) == capped(nonempty(strict_text(*answer)), MAX_URL_BYTES as nat),
{
    match string_retval(answer) {
        Some(s) => Some(cap(s.as_str(), MAX_URL_BYTES)),
        None => None,
    }
}

/// The text in what an object's method answered. An empty answer is none.
pub fn call_object_method_string(answer: &Zval, max: usize) -> (r: Option<String>)
    ensures
        opt_text(r) == capped(nonempty(strict_text(*answer)), max as nat),
{
    match string_retval(answer) {
        Some(s) => Some(cap(s.as_str(), max)),
        None => None,
    }
}

/// A transfer fact as text: a string, an integer or a double.
pub open spec fn info_text(v: Zval) -> Option<Seq<char>> {
    match target(v) {
        Zval::Str(_) => strict_text(v),
        Zval::Long(n) => Some(int_text(n as int)),
        Zval::Double(text) => Some(text@),
        _ => None,
    }
}

/// The facts under text keys of a `curl_getinfo` answer.
pub open spec fn info_pairs(t: Seq<(Key, Zval)>) -> Seq<(Seq<char>, Seq<char>)>
    decreases t.len(),
{
    if t.len() == 0 {
        Seq::empty()
    } else {
        let before = info_pairs(t.drop_last());
        match (t.last().0, info_text(t.last().1)) {
            (Key::Str(k), Some(text)) => before.push((k@, text)),
            _ => before,
        }
    }
}

fn info_string(v: &Zval) -> (r: Option<String>)
    ensures
        opt_text(r) == info_text(*v),
{
    match follow(v) {
        Zval::Str(_) => strict_string(v),
        Zval::Long(n) => Some(signed_text(*n)),
        Zval::Double(text) => Some(text.clone()),
        _ => None,
    }
}

/// The text of a fact under a key of an array.
pub fn table_field(v: &Zval, key: &str) -> (r: Option<String>)
    ensures
        opt_text(r) == match target(*v) {
            Zval::Array(t) => match entry_at(t@, key@) {
                Some(e) => info_text(e),
                None => None,
            },
            _ => None,
        },
{
    match follow(v) {
        Zval::Array(t) => match find_entry(t, key) {
            Some(i) => info_string(&t[i].1),
            None => None,
        },
        _ => None,
    }
}

/// The facts in what `curl_getinfo` answered: none when it is not an array.
pub fn curl_info(answer: &Zval) -> (r: Vec<(String, String)>)
    ensures
        crate::text::pairs(r@) == match target(*answer) {
            Zval::Array(t) => info_pairs(t@),
            _ => Seq::empty(),
        },
{
    let mut out: Vec<(String, String)> = Vec::new();
    assert(crate::text::pairs(out@) =~= Seq::empty());
    match follow(answer) {
        Zval::Array(t) => {
            let mut i: usize = 0;
            assert(t@.take(0) =~= Seq::empty());
            while i < t.len()
                invariant
                    i <= t@.len(),
                    crate::text::pairs(out@) == info_pairs(t@.take(i as int)),
                decreases t@.len() - i,
            {
                assert(t@.take(i + 1).drop_last() =~= t@.take(i as int));
                assert(t@.take(i + 1).last() == t@[i as int]);
                let ghost before = crate::text::pairs(out@);
                if let Key::Str(k) = &t[i].0 {
                    if let Some(text) = info_string(&t[i].1) {
                        let ghost e = (k@, text@);
                        out.push((k.clone(), text));
                        assert(crate::text::pairs(out@) =~= before.push(e));
                    }
                }
                i = i + 1;
            }
            assert(t@.take(t@.len() as int) =~= t@);
        },
        _ => {},
    }
    out
}

/// The type of a passed argument.
#[derive(Clone, Copy, Debug, PartialEq, Eq, Structural)]
pub enum ArgumentType {
    Null,
    Bool,
    Int,
    Float,
    Str,
    Array,
    Object,
    Resource,
}

/// The type of a value. A reference and an unset slot read as null.
pub open spec fn type_of(v: Zval) -> ArgumentType {
    match v {
        Zval::Bool(_) => ArgumentType::Bool,
        Zval::Long(_) => ArgumentType::Int,
        Zval::Double(_) => ArgumentType::Float,
        Zval::Str(_) => ArgumentType::Str,
        Zval::Array(_) => ArgumentType::Array,
        Zval::Object(_) => ArgumentType::Object,
        Zval::Resource => ArgumentType::Resource,
        _ => ArgumentType::Null,
    }
}

fn argument_type_of(v: &Zval) -> (r: ArgumentType)
    ensures
        r == type_of(*v),
{
    match v {
        Zval::Bool(_) => ArgumentType::Bool,
        Zval::Long(_) => ArgumentType::Int,
        Zval::Double(_) => ArgumentType::Float,
        Zval::Str(_) => ArgumentType::Str,
        Zval::Array(_) => ArgumentType::Array,
        Zval::Object(_) => ArgumentType::Object,
        Zval::Resource => ArgumentType::Resource,
        _ => ArgumentType::Null,
    }
}

/// One argument as passed: its place, declared name and type, and its text when
/// it is a scalar.
pub struct ScalarArgument {
    pub position: u32,
    pub name: String,
    pub argument_type: ArgumentType,
    pub raw: Option<String>,
}

/// The declared name of a parameter: empty for internal functions and for
/// arguments past the declared list.
pub open spec fn declared_name(call: Call, index: int) -> Seq<char> {
    match call.func {
        Some(f) => if f.user && 0 <= index < f.arg_names@.len() {
            match f.arg_names@[index] {
                Some(name) => name@,
                None => Seq::empty(),
            }
        } else {
            Seq::empty()
        },
        None => Seq::empty(),
    }
}

fn declared_argument_name(call: &Call, index: usize) -> (r: String)
    ensures
        r@ == declared_name(*call, index as int),
{
    match &call.func {
        Some(f) => {
            if !f.user || index >= f.arg_names.len() {
                return String::new();
            }
            match &f.arg_names[index] {
                Some(name) => name.clone(),
                None => String::new(),
            }
        },
        None => String::new(),
    }
}

/// The lesser of two counts.
pub open spec fn lesser(a: int, b: int) -> int {
    if a < b {
        a
    } else {
        b
    }
}

/// Whether a record is that of the argument at a place of a call.
pub open spec fn records(a: ScalarArgument, call: Call, i: int) -> bool {
    &&& a.position == lesser(i, u32::MAX as int)
    &&& a.name@ == declared_name(call, i)
    &&& a.argument_type == type_of(call.args@[i])
    &&& opt_text(a.raw) == scalar_text(call.args@[i])
}

/// The first `max_arguments` arguments of a call, and how many were left out.
pub fn capture_scalar_arguments(call: &Call, max_arguments: usize) -> (r: (
    Vec<ScalarArgument>,
    u32,
))
    ensures
        r.0@.len() == lesser(call.args@.len() as int, max_arguments as int),
        r.1 == lesser(call.args@.len() - r.0@.len(), u32::MAX as int),
        forall|i: int| 0 <= i < r.0@.len() ==> records(#[trigger] r.0@[i], *call, i),
{
    let argc: usize = call.args.len();
    let taken: usize = if argc < max_arguments {
        argc
    } else {
        max_arguments
    };
    let over: usize = argc - taken;
    let dropped: u32 = clamp_u32(over);
    let mut out: Vec<ScalarArgument> = Vec::new();
    let mut i: usize = 0;
    while i < taken
        invariant
            i <= taken <= call.args@.len(),
            out@.len() == i,
            forall|k: int| 0 <= k < i ==> records(#[trigger] out@[k], *call, k),
        decreases taken - i,
    {
        out.push(
            ScalarArgument {
                position: clamp_u32(i),
                name: declared_argument_name(call, i),
                argument_type: argument_type_of(&call.args[i]),
                raw: zval_to_owned_string(&call.args[i]),
            },
        );
        i = i + 1;
    }
    (out, dropped)
}

fn clamp_u32(n: usize) -> (r: u32)
    ensures
        r == lesser(n as int, u32::MAX as int),
{
    if n < u32::MAX as usize {
        n as u32
    } else {
        u32::MAX
    }
}

proof fn lemma_entry_found(t: Seq<(Key, Zval)>, key: Seq<char>) -> (i: int)
    requires
        entry_at(t, key) is Some,
    ensures
        first_entry(t, key, i),
        entry_at(t, key) == Some(t[i].1),
    decreases t.len(),
{
    if is_key(t[0].0, key) {
        0
    } else {
        let s = t.drop_first();
        let k = lemma_entry_found(s, key);
        assert forall|j: int| 0 <= j < k + 1 implies !is_key(#[trigger] t[j].0, key) by {
            if j > 0 {
                assert(s[j - 1] == t[j]);
            }
        }
        assert(t[k + 1] == s[k]);
        k + 1
    }
}

/// The value of the first pair under a key.
pub open spec fn pair_value(s: Seq<(Seq<char>, Seq<char>)>, key: Seq<char>) -> Option<Seq<char>>
    decreases s.len(),
{
    if s.len() == 0 {
        None
    } else if s[0].0 == key {
        Some(s[0].1)
    } else {
        pair_value(s.drop_first(), key)
    }
}

proof fn lemma_pair_value_push(
    s: Seq<(Seq<char>, Seq<char>)>,
    e: (Seq<char>, Seq<char>),
    key: Seq<char>,
)
    ensures
        pair_value(s.push(e), key) == match pair_value(s, key) {
            Some(v) => Some(v),
            None => if e.0 == key {
                Some(e.1)
            } else {
                None
            },
        },
        pair_value(s, key) is Some <==> has_pair(s, key),
    decreases s.len(),
{
    if s.len() == 0 {
        assert(s.push(e).drop_first() =~= s);
    } else {
        assert(s.push(e).drop_first() =~= s.drop_first().push(e));
        lemma_pair_value_push(s.drop_first(), e, key);
        if s[0].0 != key {
            if has_pair(s, key) {
                let i = choose|i: int| 0 <= i < s.len() && #[trigger] s[i].0 == key;
                assert(s.drop_first()[i - 1].0 == key);
            }
            if has_pair(s.drop_first(), key) {
                let i = choose|i: int|
                    0 <= i < s.drop_first().len() && #[trigger] s.drop_first()[i].0 == key;
                assert(s[i + 1].0 == key);
            }
        } else {
            assert(s[0].0 == key);
        }
    }
}

proof fn lemma_missing_value(
    t: Seq<(Key, Zval)>,
    entries: Seq<(Seq<char>, Seq<char>)>,
    key: Seq<char>,
)
    requires
        entry_at(t, key) is None,
    ensures
        pair_value(missing(t, entries), key) == pair_value(entries, key),
    decreases entries.len(),
{
    if entries.len() > 0 {
        let init = entries.drop_last();
        let e = entries.last();
        lemma_missing_value(t, init, key);
        assert(entries =~= init.push(e));
        lemma_pair_value_push(init, e, key);
        lemma_pair_value_push(missing(t, init), e, key);
        lemma_pair_value_push(missing(t, init), e, e.0);
    }
}

proof fn lemma_grown_entry(
    before: Seq<(Key, Zval)>,
    after: Seq<(Key, Zval)>,
    added: Seq<(Seq<char>, Seq<char>)>,
    shape: Shape,
    key: Seq<char>,
)
    requires
        after.len() == before.len() + added.len(),
        after.take(before.len() as int) == before,
        forall|i: int|
            0 <= i < added.len() ==> is_key(
                (#[trigger] after[before.len() + i]).0,
                added[i].0,
            ) && stores(after[before.len() + i].1, added[i].1, shape),
    ensures
        entry_at(before, key) is Some ==> entry_at(after, key) == entry_at(before, key),
        entry_at(before, key) is None ==> match pair_value(added, key) {
            Some(v) => entry_at(after, key) is Some && stores(entry_at(after, key)->0, v, shape),
            None => entry_at(after, key) is None,
        },
    decreases before.len() + added.len(),
{
    if before.len() > 0 {
        assert(after[0] == after.take(before.len() as int)[0]);
        if !is_key(before[0].0, key) {
            let b = before.drop_first();
            let a = after.drop_first();
            assert(a.take(b.len() as int) =~= after.take(before.len() as int).drop_first());
            assert forall|i: int| 0 <= i < added.len() implies is_key(
                (#[trigger] a[b.len() + i]).0,
                added[i].0,
            ) && stores(a[b.len() + i].1, added[i].1, shape) by {
                assert(a[b.len() + i] == after[before.len() + i]);
            }
            lemma_grown_entry(b, a, added, shape, key);
        }
    } else if added.len() > 0 {
        assert(after[before.len() + 0int] == after[0]);
        assert(is_key(after[before.len() + 0int].0, added[0].0));
        if added[0].0 != key {
            let a = after.drop_first();
            let d = added.drop_first();
            assert(a.take(0) =~= before);
            assert forall|i: int| 0 <= i < d.len() implies is_key(
                (#[trigger] a[before.len() + i]).0,
                d[i].0,
            ) && stores(a[before.len() + i].1, d[i].1, shape) by {
                assert(a[before.len() + i] == after[before.len() + (i + 1)]);
            }
            lemma_grown_entry(before, a, d, shape, key);
        }
    }
}

/// A key that was there before headers were added still has the value it had,
/// whatever was to be added under it.
pub proof fn law_added_headers_never_replace(
    before: Seq<(Key, Zval)>,
    after: Seq<(Key, Zval)>,
    entries: Seq<(Seq<char>, Seq<char>)>,
    shape: Shape,
    key: Seq<char>,
)
    requires
        grown(before, after, entries, shape),
        entry_at(before, key) is Some,
    ensures
        entry_at(after, key) == entry_at(before, key),
        header_in(after, key) == header_in(before, key),
{
    lemma_grown_entry(before, after, missing(before, entries), shape, key);
}

proof fn lemma_pair_read(v: Zval, value: Seq<char>, tagged: spec_fn(Zval) -> bool)
    requires
        is_pair(v, value, tagged),
    ensures
        v matches Zval::Array(p) && entry_at_index(p@, 1) matches Some(e) && raw_bytes(e) == Some(
            encode_utf8(value),
        ),
{
    let p = v->Array_0@;
    let t = p.drop_first();
    assert(p[0].0 == Key::Int(0));
    assert(t[0] == p[1]);
    reveal_with_fuel(entry_at_index, 3);
}

proof fn lemma_header_reads(t: Seq<(Key, Zval)>, key: Seq<char>, v: Seq<char>, shape: Shape)
    requires
        entry_at(t, key) is Some,
        stores(entry_at(t, key)->0, v, shape),
    ensures
        header_in(t, key) == Some(v),
{
    vstd::utf8::encode_utf8_valid_utf8(v);
    vstd::utf8::encode_utf8_decode_utf8(v);
    let e = entry_at(t, key)->0;
    match shape {
        Shape::Plain => {},
        Shape::Symbol => {
            lemma_pair_read(e, v, |t: Zval| raw_bytes(t) == Some(encode_utf8("S"@)));
        },
        Shape::TypedLong => {
            lemma_pair_read(e, v, |t: Zval| t == Zval::Long(AMQP_T_STRING_LONG));
        },
    }
}

/// A header whose key was absent reads back as the text that was added under
/// it, and as nothing when none was.
pub proof fn law_added_header_reads_back(
    before: Seq<(Key, Zval)>,
    after: Seq<(Key, Zval)>,
    entries: Seq<(Seq<char>, Seq<char>)>,
    shape: Shape,
    key: Seq<char>,
)
    requires
        grown(before, after, entries, shape),
        entry_at(before, key) is None,
    ensures
        header_in(after, key) == pair_value(entries, key),
{
    lemma_missing_value(before, entries, key);
    lemma_grown_entry(before, after, missing(before, entries), shape, key);
    match pair_value(entries, key) {
        Some(v) => {
            lemma_header_reads(after, key, v, shape);
        },
        None => {},
    }
}

proof fn lemma_no_entry(t: Seq<(Key, Zval)>, key: Seq<char>, j: int)
    requires
        entry_at(t, key) is None,
        0 <= j < t.len(),
    ensures
        !is_key(t[j].0, key),
    decreases t.len(),
{
    if j > 0 {
        lemma_no_entry(t.drop_first(), key, j - 1);
    }
}

/// Whatever form a message's application headers take, one that was there keeps
/// its value, and any other reads back as what was added under its key.
pub proof fn law_application_header_reads_back(
    before: Object,
    after: Object,
    entries: Seq<(Seq<char>, Seq<char>)>,
    key: Seq<char>,
)
    requires
        message_injected(before, after, entries, None),
    ensures
        application_header(after, key) == match application_headers(before) {
            Some(t) => if entry_at(t, key) is Some {
                header_in(t, key)
            } else {
                pair_value(entries, key)
            },
            None => pair_value(overlaid(entries), key),
        },
{
    let name = "application_headers"@;
    let p0 = before.table("properties"@)->0;
    let p1 = after.table("properties"@)->0;
    match entry_at(p0, name) {
        None => {
            let n = p0.len() as int;
            assert forall|j: int| 0 <= j < n implies !is_key(#[trigger] p1[j].0, name) by {
                lemma_no_entry(p0, name, j);
                assert(p1.take(n)[j] == p1[j]);
            }
            lemma_entry_at(p1, name, n);
            let t = p1.last().1->Array_0@;
            let laid = overlaid(entries);
            let none = Seq::<(Key, Zval)>::empty();
            assert(t.take(0) =~= none);
            assert forall|i: int| 0 <= i < laid.len() implies is_key(
                (#[trigger] t[none.len() + i]).0,
                laid[i].0,
            ) && stores(t[none.len() + i].1, laid[i].1, Shape::Symbol) by {
                assert(t[none.len() + i] == t[i]);
            }
            lemma_grown_entry(none, t, laid, Shape::Symbol, key);
            match pair_value(laid, key) {
                Some(v) => {
                    lemma_header_reads(t, key, v, Shape::Symbol);
                },
                None => {},
            }
        },
        Some(Zval::Array(t0)) => {
            let t1 = (entry_at(p1, name)->0)->Array_0;
            if entry_at(t0@, key) is Some {
                law_added_headers_never_replace(t0@, t1@, entries, Shape::Symbol, key);
            } else {
                law_added_header_reads_back(t0@, t1@, entries, Shape::Symbol, key);
            }
        },
        Some(Zval::Object(o0)) => {
            let o1 = (entry_at(p1, name)->0)->Object_0;
            let t0 = o0.table("data"@)->0;
            let t1 = o1.table("data"@)->0;
            if entry_at(t0, key) is Some {
                law_added_headers_never_replace(t0, t1, entries, Shape::TypedLong, key);
            } else {
                law_added_header_reads_back(t0, t1, entries, Shape::TypedLong, key);
            }
        },
        Some(_) => {},
    }
}

/// Adding the same headers a second time changes nothing.
pub proof fn law_adding_headers_twice_is_adding_once(
    before: Seq<(Key, Zval)>,
    once: Seq<(Key, Zval)>,
    twice: Seq<(Key, Zval)>,
    entries: Seq<(Seq<char>, Seq<char>)>,
    shape: Shape,
)
    requires
        grown(before, once, entries, shape),
        grown(once, twice, entries, shape),
    ensures
        twice == once,
{
    assert forall|k: int| 0 <= k < entries.len() implies entry_at(
        once,
        (#[trigger] entries[k]).0,
    ) is Some by {
        let key = entries[k].0;
        lemma_grown_entry(before, once, missing(before, entries), shape, key);
        if entry_at(before, key) is None {
            lemma_missing_value(before, entries, key);
            lemma_pair_value_push(entries, entries[k], key);
            assert(has_pair(entries, key));
        }
    }
    lemma_missing_nothing(once, entries);
    assert(twice.take(once.len() as int) =~= twice);
}

proof fn lemma_missing_nothing(t: Seq<(Key, Zval)>, entries: Seq<(Seq<char>, Seq<char>)>)
    requires
        forall|k: int|
            0 <= k < entries.len() ==> entry_at(t, (#[trigger] entries[k]).0) is Some,
    ensures
        missing(t, entries).len() == 0,
    decreases entries.len(),
{
    if entries.len() > 0 {
        let init = entries.drop_last();
        assert forall|k: int| 0 <= k < init.len() implies entry_at(
            t,
            (#[trigger] init[k]).0,
        ) is Some by {
            assert(init[k] == entries[k]);
        }
        lemma_missing_nothing(t, init);
        assert(entries[entries.len() - 1] == entries.last());
    }
}

/// Whether only the argument in a slot of a call may have changed, and whether
/// it was passed by reference has not.
pub open spec fn same_but_arg(before: Call, after: Call, index: int) -> bool {
    &&& after.function == before.function
    &&& after.func == before.func
    &&& after.this == before.this
    &&& after.args@.len() == before.args@.len()
    &&& forall|j: int|
        0 <= j < before.args@.len() && j != index ==> #[trigger] after.args@[j] == before.args@[j]
    &&& (before.arg(index) is Reference) == (after.arg(index) is Reference)
}

/// Add application headers to the AMQP message passed in a slot.
pub fn inject_arg_application_headers(
    call: &mut Call,
    index: usize,
    entries: &Vec<(String, String)>,
) -> (r: Result<(), &'static str>)
    requires
        old(call).object_arg(index as int) is Some,
    ensures
        same_but_arg(*old(call), *final(call), index as int),
        final(call).object_arg(index as int) is Some,
        message_injected(
            old(call).object_arg(index as int)->0,
            final(call).object_arg(index as int)->0,
            crate::text::pairs(entries@),
            reason_of(r),
        ),
{
    match &mut call.args[index] {
        Zval::Object(o) => inject_amqp_application_headers(&mut **o, entries),
        Zval::Reference(inner) => match &mut **inner {
            Zval::Object(o) => inject_amqp_application_headers(&mut **o, entries),
            _ => Ok(()),
        },
        _ => Ok(()),
    }
}

fn inject_inner_property(
    object: &mut Object,
    name: &str,
    property: &str,
    entries: &Vec<(String, String)>,
) -> (r: Result<(), &'static str>)
    requires
        old(object).object(name@) is Some,
    ensures
        same_but_for(*old(object), *final(object), name@),
        final(object).object(name@) is Some,
        headers_injected(
            old(object).object(name@)->0,
            final(object).object(name@)->0,
            property@,
            crate::text::pairs(entries@),
            reason_of(r),
        ),
{
    let i = match find_property(object, name) {
        Some(i) => i,
        None => {
            return Ok(());
        },
    };
    let ghost before = *object;
    let r = match &mut object.properties[i].1 {
        Zval::Object(o) => inject_property_array_entries(&mut **o, property, entries),
        Zval::Reference(inner) => match &mut **inner {
            Zval::Object(o) => inject_property_array_entries(&mut **o, property, entries),
            _ => Ok(()),
        },
        _ => Ok(()),
    };
    proof {
        assert(first_property(before.properties@, name@, i as int));
        assert forall|j: int| 0 <= j < i implies #[trigger] object.properties@[j].0@ != name@ by {
            assert(object.properties@[j] == before.properties@[j]);
        }
        lemma_property_slot(object.properties@, name@, i as int);
        assert forall|j: int|
            0 <= j < before.properties@.len() && !first_property(
                before.properties@,
                name@,
                j,
            ) implies #[trigger] object.properties@[j] == before.properties@[j] by {
            assert(j != i);
        }
    }
    r
}

/// Add entries to an array property of the object in a property of the object
/// passed in a slot.
pub fn inject_arg_inner_property(
    call: &mut Call,
    index: usize,
    name: &str,
    property: &str,
    entries: &Vec<(String, String)>,
) -> (r: Result<(), &'static str>)
    requires
        old(call).object_arg(index as int) is Some,
        (old(call).object_arg(index as int)->0).object(name@) is Some,
    ensures
        same_but_arg(*old(call), *final(call), index as int),
        final(call).object_arg(index as int) is Some,
        same_but_for(
            old(call).object_arg(index as int)->0,
            final(call).object_arg(index as int)->0,
            name@,
        ),
        (final(call).object_arg(index as int)->0).object(name@) is Some,
        headers_injected(
            (old(call).object_arg(index as int)->0).object(name@)->0,
            (final(call).object_arg(index as int)->0).object(name@)->0,
            property@,
            crate::text::pairs(entries@),
            reason_of(r),
        ),
{
    match &mut call.args[index] {
        Zval::Object(o) => inject_inner_property(&mut **o, name, property, entries),
        Zval::Reference(inner) => match &mut **inner {
            Zval::Object(o) => inject_inner_property(&mut **o, name, property, entries),
            _ => Ok(()),
        },
        _ => Ok(()),
    }
}

/// Whether a value is a text, as PHP holds it.
pub open spec fn is_text(v: Zval, text: Seq<char>) -> bool {
    v matches Zval::Str(bytes) && bytes@ == encode_utf8(text)
}

proof fn lemma_text_reads(v: Zval, text: Seq<char>)
    requires
        is_text(v, text),
    ensures
        scalar_text(v) == Some(text),
        strict_text(v) == Some(text),
{
    vstd::utf8::encode_utf8_valid_utf8(text);
    vstd::utf8::encode_utf8_decode_utf8(text);
}

/// The argument in a slot reads as the text that it is, cut to whole characters
/// within the bytes asked for; a number as its digits, a flag as its word. A slot
/// that was not passed, or that holds anything else, reads as nothing.
pub proof fn law_a_scalar_argument_reads_as_its_text(
    call: &Call,
    index: usize,
    max: usize,
    r: Option<String>,
    text: &str,
    cut: String,
    n: i64,
    digits: String,
    digits_text: &str,
    cut_digits: String,
)
    requires
        call_ensures(arg_scalar_string, (call, index, max), r),
        call_ensures(cap, (text, max), cut),
        call_ensures(signed_text, (n,), digits),
        digits_text@ == digits@,
        call_ensures(cap, (digits_text, max), cut_digits),
    ensures
        index >= call.args@.len() ==> r is None,
        index < call.args@.len() ==> {
            let v = call.args@[index as int];
            &&& is_text(v, text@) ==> r is Some && r->0@ == cut@
            &&& v == Zval::Long(n) ==> r is Some && r->0@ == cut_digits@
            &&& v == Zval::Bool(true) && max >= 4 ==> r is Some && r->0@ == "true"@
            &&& v == Zval::Bool(false) && max >= 5 ==> r is Some && r->0@ == "false"@
            &&& v is Null || v is Array || v is Object || v is Reference || v is Resource || v
                is Undef ==> r is None
        },
{
    if index < call.args@.len() {
        let v = call.args@[index as int];
        if is_text(v, text@) {
            lemma_text_reads(v, text@);
        }
        reveal_strlit("true");
        reveal_strlit("false");
        assert(vstd::utf8::is_ascii_chars("true"@)) by {
            vstd::utf8::is_ascii_chars_nat_bound("true"@);
        }
        assert(vstd::utf8::is_ascii_chars("false"@)) by {
            vstd::utf8::is_ascii_chars_nat_bound("false"@);
        }
        vstd::utf8::is_ascii_chars_encode_utf8("true"@);
        vstd::utf8::is_ascii_chars_encode_utf8("false"@);
    }
}

/// A scalar that a call returned reads as its text too, cut to 512 bytes.
pub proof fn law_a_returned_scalar_reads_as_its_text(
    retval: &Zval,
    r: Option<String>,
    text: &str,
    cut: String,
)
    requires
        call_ensures(scalar_to_string, (retval,), r),
        call_ensures(cap, (text, 512usize), cut),
    ensures
        is_text(*retval, text@) ==> r is Some && r->0@ == cut@,
        *retval is Null || *retval is Array || *retval is Object ==> r is None,
{
    if is_text(*retval, text@) {
        lemma_text_reads(*retval, text@);
    }
}

/// A call is known by its function's name, with the class before it inside one. A
/// function without a name has none.
pub proof fn law_calls_are_known_by_name(call: &Call, r: Option<String>)
    requires
        call_ensures(function_name, (call,), r),
    ensures
        call.func is None || call.func->0.name is None ==> r is None,
        call.func matches Some(f) ==> (f.name matches Some(name) ==> {
            &&& r is Some
            &&& f.class is None ==> r->0@ == name@
            &&& f.class matches Some(class) ==> r->0@ == class@ + "::"@ + name@
        }),
{
}

/// Only PHP code has a defining file. Whatever has no function, or is not PHP code,
/// counts as internal.
pub proof fn law_where_a_function_is_defined(call: &Call, file: Option<String>, internal: bool)
    requires
        call_ensures(defining_file, (call,), file),
        call_ensures(is_internal_function, (call,), internal),
    ensures
        internal <==> call.func is None || !call.func->0.user,
        internal ==> file is None,
        call.func matches Some(f) ==> f.user ==> (f.filename matches Some(name) ==> (file is Some
            <==> name@.len() > 0) && (file matches Some(shown) ==> shown@ == name@)),
        call.func matches Some(f) ==> f.filename is None ==> file is None,
{
}

/// The facts of a function: its name, whether it is PHP code, and for PHP code the
/// file and line of its definition.
pub proof fn law_function_facts(
    call: &Call,
    name: Option<String>,
    file: Option<String>,
    r: Option<FunctionFacts>,
)
    requires
        call_ensures(function_name, (call,), name),
        call_ensures(defining_file, (call,), file),
        call_ensures(function_facts, (call,), r),
    ensures
        r is Some <==> name is Some,
        r matches Some(facts) ==> {
            let f = call.func->0;
            &&& facts.name@ == name->0@
            &&& facts.internal == !f.user
            &&& f.user ==> facts.module@ == "php"@ && facts.line == f.line_start
            &&& !f.user ==> facts.module@ == "internal"@ && facts.line == 0
            &&& file matches Some(shown) ==> facts.file@ == shown@
            &&& file is None ==> facts.file@.len() == 0
        },
{
}

/// A property reads as its value: the first of its name, a reference followed, and
/// nothing where the object has none.
pub proof fn law_a_property_reads_as_its_value(
    object: &Object,
    name: &str,
    i: int,
    max: usize,
    text: &str,
    cut: String,
    shown: Option<String>,
    number: Option<i64>,
    switch: Option<bool>,
    inner: Option<&Object>,
    bytes: Option<Vec<u8>>,
)
    requires
        call_ensures(object_property_string, (object, name, max), shown),
        call_ensures(object_property_long, (object, name), number),
        call_ensures(object_property_bool, (object, name), switch),
        call_ensures(object_property_object, (object, name), inner),
        call_ensures(object_property_bytes, (object, name), bytes),
        call_ensures(cap, (text, max), cut),
        object.classes@.len() > 0,
        !name@.contains('\0'),
    ensures
        ({
            let p = object.properties@;
            let first = 0 <= i < p.len() && p[i].0@ == name@ && forall|j: int|
                0 <= j < i ==> (#[trigger] p[j]).0@ != name@;
            let absent = forall|j: int| 0 <= j < p.len() ==> (#[trigger] p[j]).0@ != name@;
            &&& absent ==> shown is None && number is None && switch is None && inner is None
                && bytes is None
            &&& first ==> {
                let v = match p[i].1 {
                    Zval::Reference(behind) => *behind,
                    other => other,
                };
                &&& is_text(v, text@) ==> shown is Some && shown->0@ == cut@
                &&& v matches Zval::Str(held) ==> bytes is Some && bytes->0@ == held@
                &&& !(v is Str) ==> bytes is None
                &&& v matches Zval::Long(n) ==> number == Some(n)
                &&& !(v is Long) ==> number is None
                &&& v matches Zval::Bool(b) ==> switch == Some(b)
                &&& !(v is Bool) ==> switch is None
                &&& v matches Zval::Object(o) ==> inner is Some && *inner->0 == *o
                &&& !(v is Object) ==> inner is None
                &&& v is Null || v is Array || v is Object ==> shown is None
            }
        }),
{
    let p = object.properties@;
    if forall|j: int| 0 <= j < p.len() ==> (#[trigger] p[j]).0@ != name@ {
        lemma_property_none(p, name@);
    }
    if 0 <= i < p.len() && p[i].0@ == name@ && forall|j: int|
        0 <= j < i ==> (#[trigger] p[j]).0@ != name@ {
        lemma_property_slot(p, name@, i);
        let v = object.property(name@);
        if is_text(v, text@) {
            lemma_text_reads(v, text@);
        }
    }
}

/// A class-less object shows nothing.
pub proof fn law_a_classless_object_shows_nothing(
    object: &Object,
    name: &str,
    max: usize,
    shown: Option<String>,
    class: Option<String>,
)
    requires
        call_ensures(object_property_string, (object, name, max), shown),
        call_ensures(object_class_name, (object,), class),
    ensures
        object.classes@.len() == 0 ==> shown is None && class is None,
        object.classes@.len() > 0 ==> class is Some && class->0@ == object.classes@[0]@,
{
}

/// An exception is told by its class and its own message, code, file and line, each
/// from the property of that name.
pub proof fn law_an_exception_is_told_by_its_properties(
    exception: &Object,
    r: Option<ExceptionIdentity>,
    name: Seq<char>,
    i: int,
    text: Seq<char>,
)
    requires
        call_ensures(exception_identity, (exception,), r),
        0 <= i < exception.properties@.len(),
        exception.properties@[i].0@ == name,
        forall|j: int| 0 <= j < i ==> (#[trigger] exception.properties@[j]).0@ != name,
        is_text(exception.properties@[i].1, text),
    ensures
        r is Some <==> exception.classes@.len() > 0,
        r matches Some(id) ==> {
            &&& id.class@ == exception.classes@[0]@
            &&& name == "message"@ ==> id.message is Some && id.message->0@ == text
            &&& name == "code"@ ==> id.code is Some && id.code->0@ == text
            &&& name == "file"@ ==> id.file is Some && id.file->0@ == text
            &&& name == "line"@ ==> id.line is Some && id.line->0@ == text
        },
{
    lemma_property_slot(exception.properties@, name, i);
    lemma_text_reads(exception.properties@[i].1, text);
    reveal_strlit("message");
    reveal_strlit("code");
    reveal_strlit("file");
    reveal_strlit("line");
    assert(!"message"@.contains('\0') && !"code"@.contains('\0'));
    assert(!"file"@.contains('\0') && !"line"@.contains('\0'));
}

/// A text under a key of an array argument, or of an array property, reads as that
/// text: the first entry under the key, and nothing without one.
pub proof fn law_an_entry_reads_as_its_text(
    call: &Call,
    index: usize,
    object: &Object,
    name: &str,
    key: &str,
    max: usize,
    table: Seq<(Key, Zval)>,
    i: int,
    text: &str,
    cut: String,
    from_arg: Option<String>,
    from_property: Option<String>,
    found: bool,
)
    requires
        call_ensures(arg_array_str_key_string, (call, index, key, max), from_arg),
        call_ensures(object_property_table_string, (object, name, key, max), from_property),
        call_ensures(object_property_array_has_str_key, (object, name, key), found),
        call_ensures(cap, (text, max), cut),
    ensures
        ({
            let first = 0 <= i < table.len() && is_key(table[i].0, key@) && forall|j: int|
                0 <= j < i ==> !is_key(#[trigger] table[j].0, key@);
            let absent = forall|j: int| 0 <= j < table.len() ==> !is_key(#[trigger] table[j].0, key@);
            let passed = target(call.arg(index as int)) matches Zval::Array(t) && t@ == table;
            let held = object.table(name@) == Some(table);
            &&& passed && absent ==> from_arg is None
            &&& passed && first && is_text(table[i].1, text@) ==> from_arg is Some
                && from_arg->0@ == cut@
            &&& held && absent ==> from_property is None && !found
            &&& held && first ==> found
            &&& held && first && is_text(table[i].1, text@) ==> from_property is Some
                && from_property->0@ == cut@
        }),
        !(target(call.arg(index as int)) is Array) ==> from_arg is None,
        object.table(name@) is None ==> from_property is None && !found,
{
    if 0 <= i < table.len() && is_key(table[i].0, key@) && forall|j: int|
        0 <= j < i ==> !is_key(#[trigger] table[j].0, key@) {
        lemma_entry_at(table, key@, i);
        if is_text(table[i].1, text@) {
            lemma_text_reads(table[i].1, text@);
        }
    }
    if forall|j: int| 0 <= j < table.len() ==> !is_key(#[trigger] table[j].0, key@) {
        lemma_entry_none(table, key@);
    }
}

/// The other readers of arguments and results: a handle, an object, an integer, the
/// bytes of a string, each only where the slot holds one.
pub proof fn law_slots_read_as_what_they_hold(
    call: &Call,
    index: usize,
    handle: Option<u32>,
    object: Option<&Object>,
    number: Option<i64>,
    bytes: Option<Vec<u8>>,
    this: Option<u32>,
)
    requires
        index < call.args@.len(),
        call_ensures(arg_object_handle, (call, index), handle),
        call_ensures(arg_object, (call, index), object),
        call_ensures(arg_long, (call, index), number),
        call_ensures(arg_string_bytes, (call, index), bytes),
        call_ensures(this_object_handle, (call,), this),
    ensures
        ({
            let v = call.args@[index as int];
            let behind = match v {
                Zval::Reference(inner) => *inner,
                other => other,
            };
            &&& v matches Zval::Object(o) ==> handle == Some(o.handle)
            &&& !(v is Object) ==> handle is None
            &&& behind matches Zval::Object(o) ==> object is Some && *object->0 == *o
            &&& !(behind is Object) ==> object is None
            &&& v matches Zval::Long(n) ==> number == Some(n)
            &&& !(v is Long) ==> number is None
            &&& behind matches Zval::Str(held) ==> bytes is Some && bytes->0@ == held@
            &&& !(behind is Str) ==> bytes is None
        }),
        call.this matches Some(o) ==> this == Some(o.handle),
        call.this is None ==> this is None,
{
}

/// What a call returned, likewise. A string is one only where it is valid text and
/// not empty: `true` is no string.
pub proof fn law_results_read_as_what_they_are(
    retval: &Zval,
    truth: bool,
    handle: Option<u32>,
    length: Option<usize>,
    bytes: Option<Vec<u8>>,
    string: Option<String>,
    text: Seq<char>,
)
    requires
        call_ensures(retval_is_true, (retval,), truth),
        call_ensures(retval_object_handle, (retval,), handle),
        call_ensures(retval_array_len, (retval,), length),
        call_ensures(retval_string_bytes, (retval,), bytes),
        call_ensures(string_retval, (retval,), string),
    ensures
        truth <==> *retval == Zval::Bool(true),
        *retval matches Zval::Object(o) ==> handle == Some(o.handle),
        !(*retval is Object) ==> handle is None,
        *retval matches Zval::Array(t) ==> length is Some && length->0 == t@.len(),
        !(*retval is Array) ==> length is None,
        *retval matches Zval::Str(held) ==> bytes is Some && bytes->0@ == held@,
        is_text(*retval, text) && text.len() > 0 ==> string is Some && string->0@ == text,
        is_text(*retval, text) && text.len() == 0 ==> string is None,
        *retval is Bool || *retval is Null || *retval is Array || *retval is Long ==> string is None,
        *retval is Bool || *retval is Null || *retval is Array || *retval is Long ==> bytes is None,
{
    if is_text(*retval, text) {
        lemma_text_reads(*retval, text);
    }
}

/// The effective URL is the text that curl answered, cut to 512 bytes; so is what a
/// method answered, cut as asked for. An empty answer, or one that is no text, is
/// none.
pub proof fn law_answers_read_as_their_text(
    answer: &Zval,
    max: usize,
    text: &str,
    cut_url: String,
    cut: String,
    url: Option<String>,
    said: Option<String>,
)
    requires
        call_ensures(curl_effective_url, (answer,), url),
        call_ensures(call_object_method_string, (answer, max), said),
        call_ensures(cap, (text, 512usize), cut_url),
        call_ensures(cap, (text, max), cut),
        is_text(*answer, text@),
    ensures
        text@.len() > 0 ==> url is Some && url->0@ == cut_url@ && said is Some && said->0@ == cut@,
        text@.len() == 0 ==> url is None && said is None,
{
    lemma_text_reads(*answer, text@);
}

/// An object is of its own class and of its parents', as far as 64 up.
pub proof fn law_an_object_is_of_its_classes(object: &Object, class: &str, r: bool)
    requires
        call_ensures(object_instance_of, (object, class), r),
    ensures
        r <==> exists|i: int|
            0 <= i < object.classes@.len() && i < 64 && (#[trigger] object.classes@[i])@ == class@,
{
}

proof fn lemma_first_value(entries: Seq<(String, String)>, key: Seq<char>, i: int)
    requires
        0 <= i < entries.len(),
        entries[i].0@ == key,
        forall|j: int| 0 <= j < i ==> (#[trigger] entries[j]).0@ != key,
    ensures
        pair_value(crate::text::pairs(entries), key) == Some(entries[i].1@),
    decreases i,
{
    let p = crate::text::pairs(entries);
    assert(p[0] == (entries[0].0@, entries[0].1@));
    if i > 0 {
        let rest = entries.drop_first();
        assert(entries[0].0@ != key);
        assert forall|j: int| 0 <= j < i - 1 implies (#[trigger] rest[j]).0@ != key by {
            assert(rest[j] == entries[j + 1]);
        }
        lemma_first_value(rest, key, i - 1);
        assert(p.drop_first() =~= crate::text::pairs(rest));
    }
}

/// Headers that are added to an array argument are there for the callee to read: one
/// whose key was absent reads as the text that was added, one that was there reads
/// as before. Other arguments stay. Where there is no array nothing is written, and
/// the reason is given.
pub proof fn law_headers_added_to_an_argument_can_be_read(
    call: &mut Call,
    index: usize,
    entries: &Vec<(String, String)>,
    r: Result<(), &'static str>,
    before: &Call,
    after: &Call,
    key: &str,
    max: usize,
    was: Option<String>,
    is_now: Option<String>,
    i: int,
    value: &str,
    cut: String,
)
    requires
        call_ensures(inject_array_entries, (call, index, entries), r),
        *before == *old(call),
        *after == *final(call),
        call_ensures(arg_array_str_key_string, (before, index, key, max), was),
        call_ensures(arg_array_str_key_string, (after, index, key, max), is_now),
        0 <= i < entries@.len(),
        entries@[i].0@ == key@,
        entries@[i].1@ == value@,
        forall|j: int| 0 <= j < i ==> (#[trigger] entries@[j]).0@ != key@,
        call_ensures(cap, (value, max), cut),
    ensures
        r is Ok <==> target(old(call).arg(index as int)) is Array,
        r matches Err(reason) ==> {
            &&& index >= old(call).args@.len() ==> reason@ == "headers argument not passed"@
            &&& index < old(call).args@.len() ==> reason@ == "headers argument is not an array"@
            &&& final(call).args@ == old(call).args@
        },
        target(old(call).arg(index as int)) matches Zval::Array(t) ==> {
            &&& (forall|k: int| 0 <= k < t@.len() ==> !is_key(#[trigger] t@[k].0, key@))
                ==> is_now is Some && is_now->0@ == cut@
            &&& (exists|k: int| 0 <= k < t@.len() && is_key(#[trigger] t@[k].0, key@))
                ==> opt_text(is_now) == opt_text(was)
        },
        final(call).args@.len() == old(call).args@.len(),
        forall|j: int|
            0 <= j < old(call).args@.len() && j != index ==> #[trigger] final(call).args@[j] == old(
                call,
            ).args@[j],
        final(call).this == old(call).this,
        final(call).func == old(call).func,
{
    match target(old(call).arg(index as int)) {
        Zval::Array(t0) => {
            let t1 = target(final(call).arg(index as int))->Array_0;
            let added = missing(t0@, crate::text::pairs(entries@));
            lemma_grown_entry(t0@, t1@, added, Shape::Plain, key@);
            if forall|k: int| 0 <= k < t0@.len() ==> !is_key(#[trigger] t0@[k].0, key@) {
                lemma_entry_none(t0@, key@);
                lemma_missing_value(t0@, crate::text::pairs(entries@), key@);
                lemma_first_value(entries@, key@, i);
                lemma_text_reads(entry_at(t1@, key@)->0, value@);
            } else {
                let k = choose|k: int| 0 <= k < t0@.len() && is_key(#[trigger] t0@[k].0, key@);
                if entry_at(t0@, key@) is None {
                    lemma_no_entry(t0@, key@, k);
                }
            }
        },
        _ => {},
    }
}

/// Headers that are added to an array property are there for a reader of it, under
/// the same rule.
pub proof fn law_headers_added_to_a_property_can_be_read(
    object: &mut Object,
    property: &str,
    entries: &Vec<(String, String)>,
    r: Result<(), &'static str>,
    before: &Object,
    after: &Object,
    key: &str,
    max: usize,
    was: Option<String>,
    is_now: Option<String>,
    i: int,
    value: &str,
    cut: String,
)
    requires
        call_ensures(inject_property_array_entries, (object, property, entries), r),
        *before == *old(object),
        *after == *final(object),
        call_ensures(object_property_table_string, (before, property, key, max), was),
        call_ensures(object_property_table_string, (after, property, key, max), is_now),
        0 <= i < entries@.len(),
        entries@[i].0@ == key@,
        entries@[i].1@ == value@,
        forall|j: int| 0 <= j < i ==> (#[trigger] entries@[j]).0@ != key@,
        call_ensures(cap, (value, max), cut),
    ensures
        r is Ok <==> old(object).table(property@) is Some,
        r is Err ==> *final(object) == *old(object),
        old(object).table(property@) matches Some(t) ==> {
            &&& (forall|k: int| 0 <= k < t.len() ==> !is_key(#[trigger] t[k].0, key@)) ==> is_now
                is Some && is_now->0@ == cut@
            &&& (exists|k: int| 0 <= k < t.len() && is_key(#[trigger] t[k].0, key@)) ==> opt_text(
                is_now,
            ) == opt_text(was)
        },
        final(object).handle == old(object).handle,
{
    if let Some(t0) = old(object).table(property@) {
        let t1 = final(object).table(property@)->0;
        let added = missing(t0, crate::text::pairs(entries@));
        lemma_grown_entry(t0, t1, added, Shape::Plain, key@);
        if forall|k: int| 0 <= k < t0.len() ==> !is_key(#[trigger] t0[k].0, key@) {
            lemma_entry_none(t0, key@);
            lemma_missing_value(t0, crate::text::pairs(entries@), key@);
            lemma_first_value(entries@, key@, i);
            lemma_text_reads(entry_at(t1, key@)->0, value@);
        } else {
            let k = choose|k: int| 0 <= k < t0.len() && is_key(#[trigger] t0[k].0, key@);
            if entry_at(t0, key@) is None {
                lemma_no_entry(t0, key@, k);
            }
        }
    }
}

proof fn lemma_pair_distinct(entries: Seq<(Seq<char>, Seq<char>)>, key: Seq<char>)
    requires
        forall|i: int, j: int| 0 <= i < j < entries.len() ==> (#[trigger] entries[i]).0 != (
        #[trigger] entries[j]).0,
    ensures
        overlaid(entries) == entries,
    decreases entries.len(),
{
    if entries.len() > 0 {
        let init = entries.drop_last();
        assert forall|i: int, j: int| 0 <= i < j < init.len() implies (#[trigger] init[i]).0 != (
        #[trigger] init[j]).0 by {
            assert(init[i] == entries[i] && init[j] == entries[j]);
        }
        lemma_pair_distinct(init, key);
        let e = entries.last();
        assert(!has_pair(init, e.0)) by {
            if has_pair(init, e.0) {
                let i = choose|i: int| 0 <= i < init.len() && #[trigger] init[i].0 == e.0;
                assert(entries[i].0 != entries[entries.len() - 1].0);
            }
        }
        assert(init.push(e) =~= entries);
    }
}

/// Application headers that are added to an AMQP message are there for its consumer
/// to read, whatever form the headers take: one that was there reads as before, any
/// other as the text that was added.
pub proof fn law_application_headers_can_be_read(
    message: &mut Object,
    entries: &Vec<(String, String)>,
    r: Result<(), &'static str>,
    before: &Object,
    after: &Object,
    key: &str,
    max: usize,
    was: Option<String>,
    is_now: Option<String>,
    i: int,
    value: &str,
    cut: String,
)
    requires
        call_ensures(inject_amqp_application_headers, (message, entries), r),
        *before == *old(message),
        *after == *final(message),
        call_ensures(amqp_application_header, (before, key, max), was),
        call_ensures(amqp_application_header, (after, key, max), is_now),
        0 <= i < entries@.len(),
        entries@[i].0@ == key@,
        entries@[i].1@ == value@,
        forall|j: int, k: int| 0 <= j < k < entries@.len() ==> (#[trigger] entries@[j]).0@ != (
        #[trigger] entries@[k]).0@,
        call_ensures(cap, (value, max), cut),
    ensures
        r is Ok ==> match application_headers(*old(message)) {
            Some(t) => if entry_at(t, key@) is Some {
                opt_text(is_now) == opt_text(was)
            } else {
                is_now is Some && is_now->0@ == cut@
            },
            None => is_now is Some && is_now->0@ == cut@,
        },
        old(message).table("properties"@) is None ==> r is Err,
        old(message).table("properties"@) matches Some(t) ==> (entry_at(
            t,
            "application_headers"@,
        ) is None ==> r is Ok),
        old(message).table("properties"@) matches Some(t) ==> (entry_at(
            t,
            "application_headers"@,
        ) matches Some(Zval::Array(_)) ==> r is Ok),
{
    let all = crate::text::pairs(entries@);
    if r is Ok {
        law_application_header_reads_back(*old(message), *final(message), all, key@);
        assert forall|j: int| 0 <= j < i implies (#[trigger] entries@[j]).0@ != key@ by {
            assert(entries@[j].0@ != entries@[i].0@);
        }
        lemma_first_value(entries@, key@, i);
        assert forall|j: int, k: int| 0 <= j < k < all.len() implies (#[trigger] all[j]).0 != (
        #[trigger] all[k]).0 by {
            assert(entries@[j].0@ != entries@[k].0@);
        }
        lemma_pair_distinct(all, key@);
    }
}

/// The arguments of a call are recorded in their order, as many as asked for, each
/// with its place, its declared name and type, and its text where it is a scalar;
/// the rest are counted.
pub proof fn law_arguments_are_recorded_in_order(
    call: &Call,
    max: usize,
    r: (Vec<ScalarArgument>, u32),
    i: int,
    text: Seq<char>,
)
    requires
        call_ensures(capture_scalar_arguments, (call, max), r),
        call.args@.len() <= u32::MAX,
        0 <= i < r.0@.len(),
    ensures
        call.args@.len() <= max ==> r.0@.len() == call.args@.len() && r.1 == 0,
        call.args@.len() > max ==> r.0@.len() == max && r.0@.len() + r.1 == call.args@.len(),
        ({
            let a = r.0@[i];
            let v = call.args@[i];
            &&& a.position == i
            &&& is_text(v, text) ==> a.raw is Some && a.raw->0@ == text && a.argument_type
                == ArgumentType::Str
            &&& v is Array ==> a.raw is None && a.argument_type == ArgumentType::Array
            &&& v is Object ==> a.raw is None && a.argument_type == ArgumentType::Object
            &&& v is Long ==> a.raw is Some && a.argument_type == ArgumentType::Int
            &&& v is Double ==> a.raw is Some && a.argument_type == ArgumentType::Float
            &&& v is Bool ==> a.raw is Some && a.argument_type == ArgumentType::Bool
            &&& v is Null ==> a.raw is None && a.argument_type == ArgumentType::Null
            &&& v is Resource ==> a.raw is None && a.argument_type == ArgumentType::Resource
            &&& call.func matches Some(f) ==> f.user && i < f.arg_names@.len() ==> (
            f.arg_names@[i] matches Some(name) ==> a.name@ == name@)
            &&& call.func matches Some(f) ==> !f.user ==> a.name@.len() == 0
        }),
{
    assert(records(r.0@[i], *call, i));
    if is_text(call.args@[i], text) {
        lemma_text_reads(call.args@[i], text);
    }
}

proof fn lemma_scalar_values_texts(t: Seq<(Key, Zval)>, texts_in: Seq<Seq<char>>)
    requires
        t.len() == texts_in.len(),
        t.len() <= 64,
        forall|i: int| 0 <= i < t.len() ==> is_text((#[trigger] t[i]).1, texts_in[i]),
    ensures
        scalar_values(t) == texts_in,
    decreases t.len(),
{
    if t.len() > 0 {
        let init = t.drop_last();
        let some = texts_in.drop_last();
        assert forall|i: int| 0 <= i < init.len() implies is_text((#[trigger] init[i]).1, some[i]) by {
            assert(init[i] == t[i]);
        }
        lemma_scalar_values_texts(init, some);
        assert(is_text(t[t.len() - 1].1, texts_in[t.len() - 1]));
        lemma_text_reads(t.last().1, texts_in.last());
        assert(some.push(texts_in.last()) =~= texts_in);
    } else {
        assert(texts_in =~= Seq::empty());
    }
}

/// An array argument of texts reads as those texts, in order, up to 64 of them.
pub proof fn law_a_list_argument_reads_as_its_texts(
    call: &Call,
    index: usize,
    r: Option<Vec<String>>,
    values: Seq<Seq<char>>,
)
    requires
        call_ensures(arg_string_array, (call, index), r),
        call.arg(index as int) matches Zval::Array(t) && t@.len() == values.len() && t@.len() <= 64
            && forall|i: int| 0 <= i < t@.len() ==> is_text((#[trigger] t@[i]).1, values[i]),
    ensures
        r is Some,
        crate::text::texts(r->0@) == values,
{
    lemma_scalar_values_texts(call.arg(index as int)->Array_0@, values);
}

/// Each fact that curl answers under a text key is there under that key: a text as
/// itself, an integer as its digits, a double as it prints.
pub proof fn law_curl_facts_are_what_curl_answers(
    answer: &Zval,
    r: Vec<(String, String)>,
    i: int,
    text: Seq<char>,
    n: i64,
    digits: String,
)
    requires
        call_ensures(curl_info, (answer,), r),
        call_ensures(signed_text, (n,), digits),
    ensures
        !(target(*answer) is Array) ==> r@.len() == 0,
        target(*answer) matches Zval::Array(t) ==> 0 <= i < t@.len() ==> (t@[i].0 matches Key::Str(key) ==> {
            let p = crate::text::pairs(r@);
            &&& is_text(t@[i].1, text) ==> p.contains((key@, text))
            &&& t@[i].1 == Zval::Long(n) ==> p.contains((key@, digits@))
            &&& t@[i].1 matches Zval::Double(shown) ==> p.contains((key@, shown@))
        }),
{
    assert(crate::text::pairs(r@).len() == r@.len());
    if let Zval::Array(t) = target(*answer) {
        if 0 <= i < t@.len() {
            if is_text(t@[i].1, text) {
                lemma_text_reads(t@[i].1, text);
            }
            lemma_info_has(t@, i);
        }
    }
}

proof fn lemma_info_has(t: Seq<(Key, Zval)>, i: int)
    requires
        0 <= i < t.len(),
    ensures
        t[i].0 matches Key::Str(key) ==> (info_text(t[i].1) matches Some(text) ==> info_pairs(
            t,
        ).contains((key@, text))),
    decreases t.len(),
{
    if let (Key::Str(key), Some(text)) = (t[i].0, info_text(t[i].1)) {
        let all = info_pairs(t);
        let before = info_pairs(t.drop_last());
        if i == t.len() - 1 {
            assert(all.last() == (key@, text));
            assert(all[all.len() - 1] == (key@, text));
        } else {
            lemma_info_has(t.drop_last(), i);
            assert(t.drop_last()[i] == t[i]);
            let k = before.index_of((key@, text));
            assert(all[k] == before[k]);
        }
    }
}

/// A message's application headers stand under `application_headers` of its
/// `properties`: an array, or the array that is an object's `data`. Anywhere else
/// there are none. One that is a pair reads as its second element.
pub proof fn law_where_application_headers_stand(
    message: &Object,
    key: &str,
    max: usize,
    r: Option<String>,
    p: Seq<(Key, Zval)>,
)
    requires
        call_ensures(amqp_application_header, (message, key, max), r),
        message.table("properties"@) == Some(p),
    ensures
        entry_at(p, "application_headers"@) matches Some(Zval::Array(t)) ==> opt_text(r) == capped(
            header_in(t@, key@),
            max as nat,
        ),
        entry_at(p, "application_headers"@) matches Some(Zval::Object(o)) ==> match o.table(
            "data"@,
        ) {
            Some(t) => opt_text(r) == capped(header_in(t, key@), max as nat),
            None => r is None,
        },
        entry_at(p, "application_headers"@) is None ==> r is None,
{
}

/// A header that is added to an AMQP message is a pair of its type and its text: the
/// letter `S` in an array, the number 14 in a table object.
pub proof fn law_the_form_of_an_application_header(
    message: &mut Object,
    entries: &Vec<(String, String)>,
    r: Result<(), &'static str>,
    key: Seq<char>,
    i: int,
    p: Seq<(Key, Zval)>,
)
    requires
        call_ensures(inject_amqp_application_headers, (message, entries), r),
        r is Ok,
        old(message).table("properties"@) == Some(p),
        0 <= i < entries@.len(),
        entries@[i].0@ == key,
        forall|j: int, k: int| 0 <= j < k < entries@.len() ==> (#[trigger] entries@[j]).0@ != (
        #[trigger] entries@[k]).0@,
        application_headers(*old(message)) matches Some(t) ==> entry_at(t, key) is None,
    ensures
        application_headers(*final(message)) is Some,
        entry_at(application_headers(*final(message))->0, key) matches Some(Zval::Array(pair)) && {
            &&& pair@.len() == 2
            &&& pair@[0].0 == Key::Int(0)
            &&& pair@[1].0 == Key::Int(1)
            &&& raw_bytes(pair@[1].1) == Some(encode_utf8(entries@[i].1@))
            &&& if entry_at(p, "application_headers"@) matches Some(Zval::Object(_)) {
                pair@[0].1 == Zval::Long(14)
            } else {
                raw_bytes(pair@[0].1) == Some(encode_utf8("S"@))
            }
        },
{
    let all = crate::text::pairs(entries@);
    let name = "application_headers"@;
    let p0 = p;
    let p1 = final(message).table("properties"@)->0;
    assert forall|j: int| 0 <= j < i implies (#[trigger] entries@[j]).0@ != key by {
        assert(entries@[j].0@ != entries@[i].0@);
    }
    lemma_first_value(entries@, key, i);
    assert forall|j: int, k: int| 0 <= j < k < all.len() implies (#[trigger] all[j]).0 != (
    #[trigger] all[k]).0 by {
        assert(entries@[j].0@ != entries@[k].0@);
    }
    lemma_pair_distinct(all, key);
    match entry_at(p0, name) {
        None => {
            let n = p0.len() as int;
            assert forall|j: int| 0 <= j < n implies !is_key(#[trigger] p1[j].0, name) by {
                lemma_no_entry(p0, name, j);
                assert(p1.take(n)[j] == p1[j]);
            }
            lemma_entry_at(p1, name, n);
            let t = p1.last().1->Array_0@;
            let laid = overlaid(all);
            let none = Seq::<(Key, Zval)>::empty();
            assert(t.take(0) =~= none);
            assert forall|i: int| 0 <= i < laid.len() implies is_key(
                (#[trigger] t[none.len() + i]).0,
                laid[i].0,
            ) && stores(t[none.len() + i].1, laid[i].1, Shape::Symbol) by {
                assert(t[none.len() + i] == t[i]);
            }
            lemma_grown_entry(none, t, laid, Shape::Symbol, key);
        },
        Some(Zval::Array(t0)) => {
            let t1 = (entry_at(p1, name)->0)->Array_0;
            lemma_missing_value(t0@, all, key);
            lemma_grown_entry(t0@, t1@, missing(t0@, all), Shape::Symbol, key);
        },
        Some(Zval::Object(o0)) => {
            let o1 = (entry_at(p1, name)->0)->Object_0;
            let t0 = o0.table("data"@)->0;
            let t1 = o1.table("data"@)->0;
            lemma_missing_value(t0, all, key);
            lemma_grown_entry(t0, t1, missing(t0, all), Shape::TypedLong, key);
        },
        Some(_) => {},
    }
}

/// Why headers are refused: the property cannot be read, or is no array; of AMQP
/// headers also that they are neither, or that a table object's `data` is not.
pub proof fn law_why_headers_are_refused(
    object: &mut Object,
    property: &str,
    entries: &Vec<(String, String)>,
    r: Result<(), &'static str>,
    message: &mut Object,
    s: Result<(), &'static str>,
)
    requires
        call_ensures(inject_property_array_entries, (object, property, entries), r),
        call_ensures(inject_amqp_application_headers, (message, entries), s),
    ensures
        r matches Err(reason) ==> {
            &&& old(object).readable(property@) ==> reason@ == "headers property is not an array"@
            &&& !old(object).readable(property@) ==> reason@ == "headers property not passed"@
        },
        old(message).table("properties"@) is None && old(message).readable("properties"@) ==> (
        s matches Err(reason) && reason@ == "properties is not an array"@),
        !old(message).readable("properties"@) ==> (s matches Err(reason) && reason@
            == "properties not readable"@),
        old(message).table("properties"@) matches Some(p) ==> {
            &&& entry_at(p, "application_headers"@) matches Some(Zval::Object(o)) ==> o.table(
                "data"@,
            ) is None ==> (s matches Err(reason) && {
                &&& o.readable("data"@) ==> reason@ == "AMQPTable data is not an array"@
                &&& !o.readable("data"@) ==> reason@ == "AMQPTable data not readable"@
            })
            &&& entry_at(p, "application_headers"@) is Some && !(entry_at(
                p,
                "application_headers"@,
            )->0 is Array) && !(entry_at(p, "application_headers"@)->0 is Object) ==> (s matches Err(
                reason,
            ) && reason@ == "application_headers is neither array nor object"@)
        },
        s is Err ==> final(message).handle == old(message).handle,
{
}

/// Headers that are added to a message in an argument change that message alone, as
/// they would anywhere: the function, the object and every other argument of the call
/// are as they were.
pub proof fn law_headers_in_a_message_change_it_alone(
    call: &mut Call,
    index: usize,
    entries: &Vec<(String, String)>,
    r: Result<(), &'static str>,
    nested: &mut Call,
    name: &str,
    property: &str,
    s: Result<(), &'static str>,
    message: &mut Object,
    t: Result<(), &'static str>,
    payload: &mut Object,
    u: Result<(), &'static str>,
)
    requires
        call_ensures(inject_arg_application_headers, (call, index, entries), r),
        call_ensures(inject_arg_inner_property, (nested, index, name, property, entries), s),
        old(call).object_arg(index as int) == Some(*old(message)),
        call_ensures(inject_amqp_application_headers, (message, entries), t),
        old(nested).object_arg(index as int) matches Some(m) && m.object(name@) == Some(
            *old(payload),
        ),
        call_ensures(inject_property_array_entries, (payload, property, entries), u),
    ensures
        final(call).this == old(call).this && final(call).func == old(call).func,
        final(call).function == old(call).function,
        final(call).args@.len() == old(call).args@.len(),
        forall|j: int|
            0 <= j < old(call).args@.len() && j != index ==> #[trigger] final(call).args@[j] == old(
                call,
            ).args@[j],
        r is Ok <==> t is Ok,
        final(nested).this == old(nested).this && final(nested).func == old(nested).func,
        final(nested).function == old(nested).function,
        final(nested).args@.len() == old(nested).args@.len(),
        forall|j: int|
            0 <= j < old(nested).args@.len() && j != index ==> #[trigger] final(nested).args@[j]
                == old(nested).args@[j],
        s is Ok <==> u is Ok,
{
}

/// Adding headers leaves the rest of an object alone: every other property, and of a
/// message's `properties` every entry but the application headers.
pub proof fn law_adding_headers_leaves_the_rest(
    object: &mut Object,
    property: &str,
    entries: &Vec<(String, String)>,
    r: Result<(), &'static str>,
    message: &mut Object,
    s: Result<(), &'static str>,
    j: int,
    k: int,
    p: Seq<(Key, Zval)>,
    q: Seq<(Key, Zval)>,
    e: int,
)
    requires
        call_ensures(inject_property_array_entries, (object, property, entries), r),
        call_ensures(inject_amqp_application_headers, (message, entries), s),
        0 <= j < old(object).properties@.len(),
        old(object).properties@[j].0@ != property@,
        0 <= k < old(message).properties@.len(),
        old(message).properties@[k].0@ != "properties"@,
        old(message).table("properties"@) == Some(p),
        final(message).table("properties"@) == Some(q),
        0 <= e < p.len(),
        !is_key(p[e].0, "application_headers"@),
    ensures
        final(object).properties@.len() == old(object).properties@.len(),
        final(object).properties@[j] == old(object).properties@[j],
        final(object).classes == old(object).classes,
        final(message).properties@.len() == old(message).properties@.len(),
        final(message).properties@[k] == old(message).properties@[k],
        final(message).classes == old(message).classes,
        e < q.len() && q[e] == p[e],
{
    assert(!first_property(old(object).properties@, property@, j));
    assert(!first_property(old(message).properties@, "properties"@, k));
    assert(!first_entry(p, "application_headers"@, e));
    if entry_at(p, "application_headers"@) is None {
        assert(q.take(p.len() as int)[e] == q[e]);
    }
}

} // verus!
