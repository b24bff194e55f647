//! Converting KeyValues into typed values.
//!
//! A type that can be read from a value implements [`FromKv`]. A record type
//! reads each of its fields with [`field`], [`field_or`] or [`field_opt`]:
//! the field's name is looked up among the keys of the block as
//! [`Value::get_all`] does, so `$MraoTexture` in the text fills a field named
//! `$mraotexture`.

use vstd::prelude::*;
use crate::text::{parse_int, parse_i32, parse_u64, parse_u32, str_eq};
use super::de::{Deserializer};
use super::error::Error;
use super::grammar::{parse_document, start};
use super::value::{KvTree, Value, lookup_pos};
use super::de::fail_is;

verus! {

/// A type that can be read from a KeyValues value.
pub trait FromKv: Sized {
    /// Whether `r` is what reading a value with contents `value` as this
    /// type gives. A type that does not say how it is read promises no
    /// particular result.
    open spec fn reads_as(value: KvTree, r: Result<Self, Error>) -> bool {
        true
    }

    /// Reads `value` as this type.
    fn from_kv(value: &Value) -> (r: Result<Self, Error>)
        ensures
            Self::reads_as(value@, r),
    ;
}

impl FromKv for Value {
    open spec fn reads_as(value: KvTree, r: Result<Value, Error>) -> bool {
        r matches Ok(v) && v@ == value
    }

    fn from_kv(value: &Value) -> (r: Result<Value, Error>)
        ensures
            r matches Ok(v) && v@ == value@,
    {
        Ok(value.clone())
    }
}

impl FromKv for String {
    open spec fn reads_as(value: KvTree, r: Result<String, Error>) -> bool {
        match value {
            KvTree::Str(s) => r matches Ok(t) && t@ == s,
            KvTree::Obj(_) => r matches Err(Error::ExpectedString),
        }
    }

    fn from_kv(value: &Value) -> (r: Result<String, Error>)
        ensures
            match value {
                Value::Str(s) => r matches Ok(t) && t@ == s@,
                Value::Obj(_) => r matches Err(Error::ExpectedString),
            },
    {
        match value {
            Value::Str(s) => Ok(s.clone()),
            _ => Err(Error::ExpectedString),
        }
    }
}

impl FromKv for bool {
    open spec fn reads_as(value: KvTree, r: Result<bool, Error>) -> bool {
        match value {
            KvTree::Str(s) => if s == "1"@ || s == "true"@ {
                r == Ok::<bool, Error>(true)
            } else if s == "0"@ || s == "false"@ {
                r == Ok::<bool, Error>(false)
            } else {
                r matches Err(Error::Message(m)) && m@ == "Invalid bool: "@ + s
            },
            KvTree::Obj(_) => r matches Err(Error::ExpectedString),
        }
    }

    /// `"1"` and `"true"` are true, `"0"` and `"false"` false.
    fn from_kv(value: &Value) -> (r: Result<bool, Error>)
        ensures
            match value {
                Value::Str(s) => if s@ == "1"@ || s@ == "true"@ {
                    r == Ok::<bool, Error>(true)
                } else if s@ == "0"@ || s@ == "false"@ {
                    r == Ok::<bool, Error>(false)
                } else {
                    r is Err
                },
                Value::Obj(_) => r matches Err(Error::ExpectedString),
            },
    {
        match value {
            Value::Str(s) => {
                if str_eq(s.as_str(), "1") || str_eq(s.as_str(), "true") {
                    Ok(true)
                } else if str_eq(s.as_str(), "0") || str_eq(s.as_str(), "false") {
                    Ok(false)
                } else {
                    let mut msg = String::from_str("Invalid bool: ");
                    msg.append(s.as_str());
                    Err(Error::Message(msg))
                }
            },
            _ => Err(Error::ExpectedString),
        }
    }
}

impl FromKv for i32 {
    open spec fn reads_as(value: KvTree, r: Result<i32, Error>) -> bool {
        match value {
            KvTree::Str(s) => match parse_int(s, true, i32::MIN as int, i32::MAX as int) {
                Some(n) => r matches Ok(v) && v as int == n,
                None => r matches Err(Error::IntParse(t)) && t@ == s,
            },
            KvTree::Obj(_) => r matches Err(Error::ExpectedString),
        }
    }

    fn from_kv(value: &Value) -> (r: Result<i32, Error>)
        ensures
            match value {
                Value::Str(s) => match parse_int(s@, true, i32::MIN as int, i32::MAX as int) {
                    Some(n) => r matches Ok(v) && v as int == n,
                    None => r matches Err(Error::IntParse(t)) && t@ == s@,
                },
                Value::Obj(_) => r matches Err(Error::ExpectedString),
            },
    {
        match value {
            Value::Str(s) => match parse_i32(s.as_str()) {
                Some(v) => Ok(v),
                None => Err(Error::IntParse(s.clone())),
            },
            _ => Err(Error::ExpectedString),
        }
    }
}

impl FromKv for u32 {
    open spec fn reads_as(value: KvTree, r: Result<u32, Error>) -> bool {
        match value {
            KvTree::Str(s) => match parse_int(s, false, 0, u32::MAX as int) {
                Some(n) => r matches Ok(v) && v as int == n,
                None => r matches Err(Error::IntParse(t)) && t@ == s,
            },
            KvTree::Obj(_) => r matches Err(Error::ExpectedString),
        }
    }

    fn from_kv(value: &Value) -> (r: Result<u32, Error>)
        ensures
            match value {
                Value::Str(s) => match parse_int(s@, false, 0, u32::MAX as int) {
                    Some(n) => r matches Ok(v) && v as int == n,
                    None => r matches Err(Error::IntParse(t)) && t@ == s@,
                },
                Value::Obj(_) => r matches Err(Error::ExpectedString),
            },
    {
        match value {
            Value::Str(s) => match parse_u32(s.as_str()) {
                Some(v) => Ok(v),
                None => Err(Error::IntParse(s.clone())),
            },
            _ => Err(Error::ExpectedString),
        }
    }
}

impl FromKv for u64 {
    open spec fn reads_as(value: KvTree, r: Result<u64, Error>) -> bool {
        match value {
            KvTree::Str(s) => match parse_int(s, false, 0, u64::MAX as int) {
                Some(n) => r matches Ok(v) && v as int == n,
                None => r matches Err(Error::IntParse(t)) && t@ == s,
            },
            KvTree::Obj(_) => r matches Err(Error::ExpectedString),
        }
    }

    fn from_kv(value: &Value) -> (r: Result<u64, Error>)
        ensures
            match value {
                Value::Str(s) => match parse_int(s@, false, 0, u64::MAX as int) {
                    Some(n) => r matches Ok(v) && v as int == n,
                    None => r matches Err(Error::IntParse(t)) && t@ == s@,
                },
                Value::Obj(_) => r matches Err(Error::ExpectedString),
            },
    {
        match value {
            Value::Str(s) => match parse_u64(s.as_str()) {
                Some(v) => Ok(v),
                None => Err(Error::IntParse(s.clone())),
            },
            _ => Err(Error::ExpectedString),
        }
    }
}

/// The values that a field named `name` of a record read from `obj` gets:
/// those of the entry that [`Value::get_all`] finds.
pub open spec fn field_values(obj: Value, name: Seq<char>) -> Option<Seq<Value>> {
    match obj {
        Value::Obj(es) => if lookup_pos(es@, name) >= 0 {
            Some(es@[lookup_pos(es@, name)].values@)
        } else {
            None
        },
        Value::Str(_) => None,
    }
}

/// Reads the field `name` of a record from the block `obj`. The field must
/// be present and written once.
pub fn field<T: FromKv>(obj: &Value, name: &str) -> (r: Result<T, Error>)
    ensures
        obj is Str ==> r matches Err(Error::ExpectedObjectStart),
        obj is Obj && field_values(*obj, name@) is None ==> r matches Err(Error::Message(_)),
        field_values(*obj, name@) matches Some(vs) && vs.len() != 1 ==> r matches Err(Error::Message(_)),
        field_values(*obj, name@) matches Some(vs) ==> (vs.len() == 1 ==> T::reads_as(vs[0]@, r)),
{
    if obj.is_str() {
        return Err(Error::ExpectedObjectStart);
    }
    match obj.get_all(name) {
        None => {
            let mut msg = String::from_str("missing field `");
            msg.append(name);
            msg.append("`");
            Err(Error::Message(msg))
        },
        Some(vs) => if vs.len() == 1 {
            T::from_kv(&vs[0])
        } else {
            Err(Error::Message(String::from_str("Expected scalar, found sequence")))
        },
    }
}

/// Reads the field `name` if it is present, as [`field`] does.
pub fn field_opt<T: FromKv>(obj: &Value, name: &str) -> (r: Result<Option<T>, Error>)
    ensures
        obj is Str ==> r matches Err(Error::ExpectedObjectStart),
        obj is Obj && field_values(*obj, name@) is None ==> r matches Ok(None),
        field_values(*obj, name@) matches Some(vs) && vs.len() == 0 ==> r matches Ok(None),
        field_values(*obj, name@) matches Some(vs) && vs.len() > 1 ==> r matches Err(Error::Message(_)),
        r matches Ok(Some(_)) ==> field_values(*obj, name@) matches Some(vs) && vs.len() == 1,
        field_values(*obj, name@) matches Some(vs) ==> (vs.len() == 1 ==> match r {
            Ok(Some(x)) => T::reads_as(vs[0]@, Ok(x)),
            Ok(None) => false,
            Err(e) => T::reads_as(vs[0]@, Err(e)),
        }),
{
    if obj.is_str() {
        return Err(Error::ExpectedObjectStart);
    }
    match obj.get_all(name) {
        None => Ok(None),
        Some(vs) => if vs.len() == 0 {
            Ok(None)
        } else if vs.len() == 1 {
            match T::from_kv(&vs[0]) {
                Ok(v) => Ok(Some(v)),
                Err(e) => Err(e),
            }
        } else {
            Err(Error::Message(String::from_str("Expected scalar, found sequence")))
        },
    }
}

/// Reads the field `name`, or gives `default` where it is absent.
pub fn field_or<T: FromKv>(obj: &Value, name: &str, default: T) -> (r: Result<T, Error>)
    ensures
        obj is Str ==> r matches Err(Error::ExpectedObjectStart),
        obj is Obj && field_values(*obj, name@) is None ==> r == Ok::<T, Error>(default),
        field_values(*obj, name@) matches Some(vs) && vs.len() == 0 ==> r == Ok::<T, Error>(default),
        field_values(*obj, name@) matches Some(vs) && vs.len() > 1 ==> r matches Err(Error::Message(_)),
        field_values(*obj, name@) matches Some(vs) ==> (vs.len() == 1 ==> T::reads_as(vs[0]@, r)),
{
    match field_opt(obj, name) {
        Ok(Some(v)) => Ok(v),
        Ok(None) => Ok(default),
        Err(e) => Err(e),
    }
}

/// Reads every value written under `name`, in order; none where it is absent.
pub fn field_vec<T: FromKv>(obj: &Value, name: &str) -> (r: Result<Vec<T>, Error>)
    ensures
        obj is Str ==> r matches Err(Error::ExpectedObjectStart),
        obj is Obj && field_values(*obj, name@) is None ==> (r matches Ok(v) && v@.len() == 0),
        r matches Ok(v) ==> (field_values(*obj, name@) matches Some(vs) ==> v@.len() == vs.len()),
        r matches Ok(v) ==> (field_values(*obj, name@) matches Some(vs) ==> forall|i: int|
            0 <= i < vs.len() ==> T::reads_as(vs[i]@, Ok(#[trigger] v@[i]))),
        obj is Obj ==> (r matches Err(e) ==> (field_values(*obj, name@) matches Some(vs) && exists|i: int|
            0 <= i < vs.len() && T::reads_as((#[trigger] vs[i])@, Err(e)))),
{
    if obj.is_str() {
        return Err(Error::ExpectedObjectStart);
    }
    let mut out: Vec<T> = Vec::new();
    match obj.get_all(name) {
        None => Ok(out),
        Some(vs) => {
            let mut i: usize = 0;
            while i < vs.len()
                invariant
                    i <= vs@.len(),
                    out@.len() == i,
                    obj is Obj,
                    field_values(*obj, name@) == Some(vs@),
                    forall|j: int| 0 <= j < i ==> T::reads_as(vs@[j]@, Ok(#[trigger] out@[j])),
                decreases vs.len() - i,
            {
                match T::from_kv(&vs[i]) {
                    Ok(v) => out.push(v),
                    Err(e) => {
                        let ghost fv = field_values(*obj, name@)->Some_0;
                        assert(fv == vs@);
                        assert(T::reads_as(fv[i as int]@, Err(e)));
                        return Err(e);
                    },
                }
                i = i + 1;
            }
            Ok(out)
        },
    }
}

/// Reads a typed value from a KeyValues value.
pub fn from_value<T: FromKv>(value: Value) -> (r: Result<T, Error>)
    ensures
        T::reads_as(value@, r),
{
    T::from_kv(&value)
}

/// Reads a typed value from KeyValues text: the whole text is read as a
/// document (see [`Deserializer::parse_root`]) and converted.
pub fn from_str<T: FromKv>(s: &str) -> (r: Result<T, Error>)
    ensures
        match parse_document(s@, start(), Seq::empty()) {
            Ok((m, _)) => T::reads_as(KvTree::Obj(m), r),
            Err((f, _)) => r matches Err(e) && fail_is(e, f),
        },
{
    let mut de = Deserializer::from_str(s);
    match de.parse_root() {
        Ok(root) => from_value(root),
        Err(e) => Err(e),
    }
}

} // verus!
