//! Byte-string constants: the names of the seeded standard-library
//! bindings, of the built-in value methods, and of the identifiers the
//! seeded routines use.
//!
//! Identifiers and field names are byte strings, so each name exists
//! twice: as a specification sequence and as an executable vector
//! proved equal to it.

use vstd::prelude::*;

verus! {

/// `"concat"`.
pub open spec fn concat_name() -> Seq<u8> {
    seq![99u8, 111u8, 110u8, 99u8, 97u8, 116u8]
}

/// `"concat"`.
pub fn concat_name_vec() -> (r: Vec<u8>)
    ensures
        r@ == concat_name(),
{
    let v: Vec<u8> = vec![99u8, 111u8, 110u8, 99u8, 97u8, 116u8];
    proof {
        assert(v@ =~= concat_name());
    }
    v
}

/// `"split"`.
pub open spec fn split_name() -> Seq<u8> {
    seq![115u8, 112u8, 108u8, 105u8, 116u8]
}

/// `"split"`.
pub fn split_name_vec() -> (r: Vec<u8>)
    ensures
        r@ == split_name(),
{
    let v: Vec<u8> = vec![115u8, 112u8, 108u8, 105u8, 116u8];
    proof {
        assert(v@ =~= split_name());
    }
    v
}

/// `"count"`.
pub open spec fn count_name() -> Seq<u8> {
    seq![99u8, 111u8, 117u8, 110u8, 116u8]
}

/// `"count"`.
pub fn count_name_vec() -> (r: Vec<u8>)
    ensures
        r@ == count_name(),
{
    let v: Vec<u8> = vec![99u8, 111u8, 117u8, 110u8, 116u8];
    proof {
        assert(v@ =~= count_name());
    }
    v
}

/// `"filter"`.
pub open spec fn filter_name() -> Seq<u8> {
    seq![102u8, 105u8, 108u8, 116u8, 101u8, 114u8]
}

/// `"filter"`.
pub fn filter_name_vec() -> (r: Vec<u8>)
    ensures
        r@ == filter_name(),
{
    let v: Vec<u8> = vec![102u8, 105u8, 108u8, 116u8, 101u8, 114u8];
    proof {
        assert(v@ =~= filter_name());
    }
    v
}

/// `"map"`.
pub open spec fn map_name() -> Seq<u8> {
    seq![109u8, 97u8, 112u8]
}

/// `"map"`.
pub fn map_name_vec() -> (r: Vec<u8>)
    ensures
        r@ == map_name(),
{
    let v: Vec<u8> = vec![109u8, 97u8, 112u8];
    proof {
        assert(v@ =~= map_name());
    }
    v
}

/// `"keys"`.
pub open spec fn keys_name() -> Seq<u8> {
    seq![107u8, 101u8, 121u8, 115u8]
}

/// `"keys"`.
pub fn keys_name_vec() -> (r: Vec<u8>)
    ensures
        r@ == keys_name(),
{
    let v: Vec<u8> = vec![107u8, 101u8, 121u8, 115u8];
    proof {
        assert(v@ =~= keys_name());
    }
    v
}

/// `"values"`.
pub open spec fn values_name() -> Seq<u8> {
    seq![118u8, 97u8, 108u8, 117u8, 101u8, 115u8]
}

/// `"values"`.
pub fn values_name_vec() -> (r: Vec<u8>)
    ensures
        r@ == values_name(),
{
    let v: Vec<u8> = vec![118u8, 97u8, 108u8, 117u8, 101u8, 115u8];
    proof {
        assert(v@ =~= values_name());
    }
    v
}

/// `"range"`.
pub open spec fn range_name() -> Seq<u8> {
    seq![114u8, 97u8, 110u8, 103u8, 101u8]
}

/// `"range"`.
pub fn range_name_vec() -> (r: Vec<u8>)
    ensures
        r@ == range_name(),
{
    let v: Vec<u8> = vec![114u8, 97u8, 110u8, 103u8, 101u8];
    proof {
        assert(v@ =~= range_name());
    }
    v
}

/// `"from"`.
pub open spec fn from_name() -> Seq<u8> {
    seq![102u8, 114u8, 111u8, 109u8]
}

/// `"from"`.
pub fn from_name_vec() -> (r: Vec<u8>)
    ensures
        r@ == from_name(),
{
    let v: Vec<u8> = vec![102u8, 114u8, 111u8, 109u8];
    proof {
        assert(v@ =~= from_name());
    }
    v
}

/// `"Iterator"`.
pub open spec fn iterator_module_name() -> Seq<u8> {
    seq![73u8, 116u8, 101u8, 114u8, 97u8, 116u8, 111u8, 114u8]
}

/// `"Iterator"`.
pub fn iterator_module_name_vec() -> (r: Vec<u8>)
    ensures
        r@ == iterator_module_name(),
{
    let v: Vec<u8> = vec![73u8, 116u8, 101u8, 114u8, 97u8, 116u8, 111u8, 114u8];
    proof {
        assert(v@ =~= iterator_module_name());
    }
    v
}

/// `"List"`.
pub open spec fn list_module_name() -> Seq<u8> {
    seq![76u8, 105u8, 115u8, 116u8]
}

/// `"List"`.
pub fn list_module_name_vec() -> (r: Vec<u8>)
    ensures
        r@ == list_module_name(),
{
    let v: Vec<u8> = vec![76u8, 105u8, 115u8, 116u8];
    proof {
        assert(v@ =~= list_module_name());
    }
    v
}

/// `"String"`.
pub open spec fn string_module_name() -> Seq<u8> {
    seq![83u8, 116u8, 114u8, 105u8, 110u8, 103u8]
}

/// `"String"`.
pub fn string_module_name_vec() -> (r: Vec<u8>)
    ensures
        r@ == string_module_name(),
{
    let v: Vec<u8> = vec![83u8, 116u8, 114u8, 105u8, 110u8, 103u8];
    proof {
        assert(v@ =~= string_module_name());
    }
    v
}

/// `"Map"`.
pub open spec fn map_module_name() -> Seq<u8> {
    seq![77u8, 97u8, 112u8]
}

/// `"Map"`.
pub fn map_module_name_vec() -> (r: Vec<u8>)
    ensures
        r@ == map_module_name(),
{
    let v: Vec<u8> = vec![77u8, 97u8, 112u8];
    proof {
        assert(v@ =~= map_module_name());
    }
    v
}

/// `"filterimpl"`.
pub open spec fn filterimpl_name() -> Seq<u8> {
    seq![102u8, 105u8, 108u8, 116u8, 101u8, 114u8, 105u8, 109u8, 112u8, 108u8]
}

/// `"filterimpl"`.
pub fn filterimpl_name_vec() -> (r: Vec<u8>)
    ensures
        r@ == filterimpl_name(),
{
    let v: Vec<u8> = vec![102u8, 105u8, 108u8, 116u8, 101u8, 114u8, 105u8, 109u8, 112u8, 108u8];
    proof {
        assert(v@ =~= filterimpl_name());
    }
    v
}

/// `"mapimpl"`.
pub open spec fn mapimpl_name() -> Seq<u8> {
    seq![109u8, 97u8, 112u8, 105u8, 109u8, 112u8, 108u8]
}

/// `"mapimpl"`.
pub fn mapimpl_name_vec() -> (r: Vec<u8>)
    ensures
        r@ == mapimpl_name(),
{
    let v: Vec<u8> = vec![109u8, 97u8, 112u8, 105u8, 109u8, 112u8, 108u8];
    proof {
        assert(v@ =~= mapimpl_name());
    }
    v
}

/// `"valuesimpl"`.
pub open spec fn valuesimpl_name() -> Seq<u8> {
    seq![118u8, 97u8, 108u8, 117u8, 101u8, 115u8, 105u8, 109u8, 112u8, 108u8]
}

/// `"valuesimpl"`.
pub fn valuesimpl_name_vec() -> (r: Vec<u8>)
    ensures
        r@ == valuesimpl_name(),
{
    let v: Vec<u8> = vec![118u8, 97u8, 108u8, 117u8, 101u8, 115u8, 105u8, 109u8, 112u8, 108u8];
    proof {
        assert(v@ =~= valuesimpl_name());
    }
    v
}

/// `"go"`.
pub open spec fn go_name() -> Seq<u8> {
    seq![103u8, 111u8]
}

/// `"go"`.
pub fn go_name_vec() -> (r: Vec<u8>)
    ensures
        r@ == go_name(),
{
    let v: Vec<u8> = vec![103u8, 111u8];
    proof {
        assert(v@ =~= go_name());
    }
    v
}

/// `"l"`.
pub open spec fn l_name() -> Seq<u8> {
    seq![108u8]
}

/// `"l"`.
pub fn l_name_vec() -> (r: Vec<u8>)
    ensures
        r@ == l_name(),
{
    let v: Vec<u8> = vec![108u8];
    proof {
        assert(v@ =~= l_name());
    }
    v
}

/// `"f"`.
pub open spec fn f_name() -> Seq<u8> {
    seq![102u8]
}

/// `"f"`.
pub fn f_name_vec() -> (r: Vec<u8>)
    ensures
        r@ == f_name(),
{
    let v: Vec<u8> = vec![102u8];
    proof {
        assert(v@ =~= f_name());
    }
    v
}

/// `"i"`.
pub open spec fn i_name() -> Seq<u8> {
    seq![105u8]
}

/// `"i"`.
pub fn i_name_vec() -> (r: Vec<u8>)
    ensures
        r@ == i_name(),
{
    let v: Vec<u8> = vec![105u8];
    proof {
        assert(v@ =~= i_name());
    }
    v
}

/// `"acc"`.
pub open spec fn acc_name() -> Seq<u8> {
    seq![97u8, 99u8, 99u8]
}

/// `"acc"`.
pub fn acc_name_vec() -> (r: Vec<u8>)
    ensures
        r@ == acc_name(),
{
    let v: Vec<u8> = vec![97u8, 99u8, 99u8];
    proof {
        assert(v@ =~= acc_name());
    }
    v
}

/// `"m"`.
pub open spec fn m_name() -> Seq<u8> {
    seq![109u8]
}

/// `"m"`.
pub fn m_name_vec() -> (r: Vec<u8>)
    ensures
        r@ == m_name(),
{
    let v: Vec<u8> = vec![109u8];
    proof {
        assert(v@ =~= m_name());
    }
    v
}

/// `"ks"`.
pub open spec fn ks_name() -> Seq<u8> {
    seq![107u8, 115u8]
}

/// `"ks"`.
pub fn ks_name_vec() -> (r: Vec<u8>)
    ensures
        r@ == ks_name(),
{
    let v: Vec<u8> = vec![107u8, 115u8];
    proof {
        assert(v@ =~= ks_name());
    }
    v
}


/// `"next"`.
pub open spec fn next_name() -> Seq<u8> {
    seq![110u8, 101u8, 120u8, 116u8]
}

/// `"next"`.
pub fn next_name_vec() -> (r: Vec<u8>)
    ensures
        r@ == next_name(),
{
    let v: Vec<u8> = vec![110u8, 101u8, 120u8, 116u8];
    proof {
        assert(v@ =~= next_name());
    }
    v
}

} // verus!
