//! Byte-string constants of the grammar and of display texts, each as a
//! spec-level sequence with a matching executable constructor.

use vstd::prelude::*;

verus! {

/// `theorem`
pub open spec fn lit_theorem() -> Seq<u8> {
    seq![116u8, 104u8, 101u8, 111u8, 114u8, 101u8, 109u8]
}

pub fn bytes_theorem() -> (r: Vec<u8>)
    ensures
        r@ == lit_theorem(),
{
    let a: [u8; 7] = [116, 104, 101, 111, 114, 101, 109];
    let r = vstd::slice::slice_to_vec(a.as_slice());
    proof {
        assert(r@ =~= lit_theorem());
    }
    r
}

/// `thm`
pub open spec fn lit_thm() -> Seq<u8> {
    seq![116u8, 104u8, 109u8]
}

pub fn bytes_thm() -> (r: Vec<u8>)
    ensures
        r@ == lit_thm(),
{
    let a: [u8; 3] = [116, 104, 109];
    let r = vstd::slice::slice_to_vec(a.as_slice());
    proof {
        assert(r@ =~= lit_thm());
    }
    r
}

/// `lemma`
pub open spec fn lit_lemma() -> Seq<u8> {
    seq![108u8, 101u8, 109u8, 109u8, 97u8]
}

pub fn bytes_lemma() -> (r: Vec<u8>)
    ensures
        r@ == lit_lemma(),
{
    let a: [u8; 5] = [108, 101, 109, 109, 97];
    let r = vstd::slice::slice_to_vec(a.as_slice());
    proof {
        assert(r@ =~= lit_lemma());
    }
    r
}

/// `lem`
pub open spec fn lit_lem() -> Seq<u8> {
    seq![108u8, 101u8, 109u8]
}

pub fn bytes_lem() -> (r: Vec<u8>)
    ensures
        r@ == lit_lem(),
{
    let a: [u8; 3] = [108, 101, 109];
    let r = vstd::slice::slice_to_vec(a.as_slice());
    proof {
        assert(r@ =~= lit_lem());
    }
    r
}

/// `proposition`
pub open spec fn lit_proposition() -> Seq<u8> {
    seq![112u8, 114u8, 111u8, 112u8, 111u8, 115u8, 105u8, 116u8, 105u8, 111u8, 110u8]
}

pub fn bytes_proposition() -> (r: Vec<u8>)
    ensures
        r@ == lit_proposition(),
{
    let a: [u8; 11] = [112, 114, 111, 112, 111, 115, 105, 116, 105, 111, 110];
    let r = vstd::slice::slice_to_vec(a.as_slice());
    proof {
        assert(r@ =~= lit_proposition());
    }
    r
}

/// `prop`
pub open spec fn lit_prop() -> Seq<u8> {
    seq![112u8, 114u8, 111u8, 112u8]
}

pub fn bytes_prop() -> (r: Vec<u8>)
    ensures
        r@ == lit_prop(),
{
    let a: [u8; 4] = [112, 114, 111, 112];
    let r = vstd::slice::slice_to_vec(a.as_slice());
    proof {
        assert(r@ =~= lit_prop());
    }
    r
}

/// `corollary`
pub open spec fn lit_corollary() -> Seq<u8> {
    seq![99u8, 111u8, 114u8, 111u8, 108u8, 108u8, 97u8, 114u8, 121u8]
}

pub fn bytes_corollary() -> (r: Vec<u8>)
    ensures
        r@ == lit_corollary(),
{
    let a: [u8; 9] = [99, 111, 114, 111, 108, 108, 97, 114, 121];
    let r = vstd::slice::slice_to_vec(a.as_slice());
    proof {
        assert(r@ =~= lit_corollary());
    }
    r
}

/// `cor`
pub open spec fn lit_cor() -> Seq<u8> {
    seq![99u8, 111u8, 114u8]
}

pub fn bytes_cor() -> (r: Vec<u8>)
    ensures
        r@ == lit_cor(),
{
    let a: [u8; 3] = [99, 111, 114];
    let r = vstd::slice::slice_to_vec(a.as_slice());
    proof {
        assert(r@ =~= lit_cor());
    }
    r
}

/// `definition`
pub open spec fn lit_definition() -> Seq<u8> {
    seq![100u8, 101u8, 102u8, 105u8, 110u8, 105u8, 116u8, 105u8, 111u8, 110u8]
}

pub fn bytes_definition() -> (r: Vec<u8>)
    ensures
        r@ == lit_definition(),
{
    let a: [u8; 10] = [100, 101, 102, 105, 110, 105, 116, 105, 111, 110];
    let r = vstd::slice::slice_to_vec(a.as_slice());
    proof {
        assert(r@ =~= lit_definition());
    }
    r
}

/// `def`
pub open spec fn lit_def() -> Seq<u8> {
    seq![100u8, 101u8, 102u8]
}

pub fn bytes_def() -> (r: Vec<u8>)
    ensures
        r@ == lit_def(),
{
    let a: [u8; 3] = [100, 101, 102];
    let r = vstd::slice::slice_to_vec(a.as_slice());
    proof {
        assert(r@ =~= lit_def());
    }
    r
}

/// `example`
pub open spec fn lit_example() -> Seq<u8> {
    seq![101u8, 120u8, 97u8, 109u8, 112u8, 108u8, 101u8]
}

pub fn bytes_example() -> (r: Vec<u8>)
    ensures
        r@ == lit_example(),
{
    let a: [u8; 7] = [101, 120, 97, 109, 112, 108, 101];
    let r = vstd::slice::slice_to_vec(a.as_slice());
    proof {
        assert(r@ =~= lit_example());
    }
    r
}

/// `ex`
pub open spec fn lit_ex() -> Seq<u8> {
    seq![101u8, 120u8]
}

pub fn bytes_ex() -> (r: Vec<u8>)
    ensures
        r@ == lit_ex(),
{
    let a: [u8; 2] = [101, 120];
    let r = vstd::slice::slice_to_vec(a.as_slice());
    proof {
        assert(r@ =~= lit_ex());
    }
    r
}

/// `remark`
pub open spec fn lit_remark() -> Seq<u8> {
    seq![114u8, 101u8, 109u8, 97u8, 114u8, 107u8]
}

pub fn bytes_remark() -> (r: Vec<u8>)
    ensures
        r@ == lit_remark(),
{
    let a: [u8; 6] = [114, 101, 109, 97, 114, 107];
    let r = vstd::slice::slice_to_vec(a.as_slice());
    proof {
        assert(r@ =~= lit_remark());
    }
    r
}

/// `rem`
pub open spec fn lit_rem() -> Seq<u8> {
    seq![114u8, 101u8, 109u8]
}

pub fn bytes_rem() -> (r: Vec<u8>)
    ensures
        r@ == lit_rem(),
{
    let a: [u8; 3] = [114, 101, 109];
    let r = vstd::slice::slice_to_vec(a.as_slice());
    proof {
        assert(r@ =~= lit_rem());
    }
    r
}

/// `proof`
pub open spec fn lit_proof() -> Seq<u8> {
    seq![112u8, 114u8, 111u8, 111u8, 102u8]
}

pub fn bytes_proof() -> (r: Vec<u8>)
    ensures
        r@ == lit_proof(),
{
    let a: [u8; 5] = [112, 114, 111, 111, 102];
    let r = vstd::slice::slice_to_vec(a.as_slice());
    proof {
        assert(r@ =~= lit_proof());
    }
    r
}

/// `pf`
pub open spec fn lit_pf() -> Seq<u8> {
    seq![112u8, 102u8]
}

pub fn bytes_pf() -> (r: Vec<u8>)
    ensures
        r@ == lit_pf(),
{
    let a: [u8; 2] = [112, 102];
    let r = vstd::slice::slice_to_vec(a.as_slice());
    proof {
        assert(r@ =~= lit_pf());
    }
    r
}

/// `figure`
pub open spec fn lit_figure() -> Seq<u8> {
    seq![102u8, 105u8, 103u8, 117u8, 114u8, 101u8]
}

pub fn bytes_figure() -> (r: Vec<u8>)
    ensures
        r@ == lit_figure(),
{
    let a: [u8; 6] = [102, 105, 103, 117, 114, 101];
    let r = vstd::slice::slice_to_vec(a.as_slice());
    proof {
        assert(r@ =~= lit_figure());
    }
    r
}

/// `fig`
pub open spec fn lit_fig() -> Seq<u8> {
    seq![102u8, 105u8, 103u8]
}

pub fn bytes_fig() -> (r: Vec<u8>)
    ensures
        r@ == lit_fig(),
{
    let a: [u8; 3] = [102, 105, 103];
    let r = vstd::slice::slice_to_vec(a.as_slice());
    proof {
        assert(r@ =~= lit_fig());
    }
    r
}

/// `table`
pub open spec fn lit_table() -> Seq<u8> {
    seq![116u8, 97u8, 98u8, 108u8, 101u8]
}

pub fn bytes_table() -> (r: Vec<u8>)
    ensures
        r@ == lit_table(),
{
    let a: [u8; 5] = [116, 97, 98, 108, 101];
    let r = vstd::slice::slice_to_vec(a.as_slice());
    proof {
        assert(r@ =~= lit_table());
    }
    r
}

/// `tab`
pub open spec fn lit_tab() -> Seq<u8> {
    seq![116u8, 97u8, 98u8]
}

pub fn bytes_tab() -> (r: Vec<u8>)
    ensures
        r@ == lit_tab(),
{
    let a: [u8; 3] = [116, 97, 98];
    let r = vstd::slice::slice_to_vec(a.as_slice());
    proof {
        assert(r@ =~= lit_tab());
    }
    r
}

/// `algorithm`
pub open spec fn lit_algorithm() -> Seq<u8> {
    seq![97u8, 108u8, 103u8, 111u8, 114u8, 105u8, 116u8, 104u8, 109u8]
}

pub fn bytes_algorithm() -> (r: Vec<u8>)
    ensures
        r@ == lit_algorithm(),
{
    let a: [u8; 9] = [97, 108, 103, 111, 114, 105, 116, 104, 109];
    let r = vstd::slice::slice_to_vec(a.as_slice());
    proof {
        assert(r@ =~= lit_algorithm());
    }
    r
}

/// `algo`
pub open spec fn lit_algo() -> Seq<u8> {
    seq![97u8, 108u8, 103u8, 111u8]
}

pub fn bytes_algo() -> (r: Vec<u8>)
    ensures
        r@ == lit_algo(),
{
    let a: [u8; 4] = [97, 108, 103, 111];
    let r = vstd::slice::slice_to_vec(a.as_slice());
    proof {
        assert(r@ =~= lit_algo());
    }
    r
}

/// `abstract`
pub open spec fn lit_abstract() -> Seq<u8> {
    seq![97u8, 98u8, 115u8, 116u8, 114u8, 97u8, 99u8, 116u8]
}

pub fn bytes_abstract() -> (r: Vec<u8>)
    ensures
        r@ == lit_abstract(),
{
    let a: [u8; 8] = [97, 98, 115, 116, 114, 97, 99, 116];
    let r = vstd::slice::slice_to_vec(a.as_slice());
    proof {
        assert(r@ =~= lit_abstract());
    }
    r
}

/// `abs`
pub open spec fn lit_abs() -> Seq<u8> {
    seq![97u8, 98u8, 115u8]
}

pub fn bytes_abs() -> (r: Vec<u8>)
    ensures
        r@ == lit_abs(),
{
    let a: [u8; 3] = [97, 98, 115];
    let r = vstd::slice::slice_to_vec(a.as_slice());
    proof {
        assert(r@ =~= lit_abs());
    }
    r
}

/// `note`
pub open spec fn lit_note() -> Seq<u8> {
    seq![110u8, 111u8, 116u8, 101u8]
}

pub fn bytes_note() -> (r: Vec<u8>)
    ensures
        r@ == lit_note(),
{
    let a: [u8; 4] = [110, 111, 116, 101];
    let r = vstd::slice::slice_to_vec(a.as_slice());
    proof {
        assert(r@ =~= lit_note());
    }
    r
}

/// `warning`
pub open spec fn lit_warning() -> Seq<u8> {
    seq![119u8, 97u8, 114u8, 110u8, 105u8, 110u8, 103u8]
}

pub fn bytes_warning() -> (r: Vec<u8>)
    ensures
        r@ == lit_warning(),
{
    let a: [u8; 7] = [119, 97, 114, 110, 105, 110, 103];
    let r = vstd::slice::slice_to_vec(a.as_slice());
    proof {
        assert(r@ =~= lit_warning());
    }
    r
}

/// `caution`
pub open spec fn lit_caution() -> Seq<u8> {
    seq![99u8, 97u8, 117u8, 116u8, 105u8, 111u8, 110u8]
}

pub fn bytes_caution() -> (r: Vec<u8>)
    ensures
        r@ == lit_caution(),
{
    let a: [u8; 7] = [99, 97, 117, 116, 105, 111, 110];
    let r = vstd::slice::slice_to_vec(a.as_slice());
    proof {
        assert(r@ =~= lit_caution());
    }
    r
}

/// `quote`
pub open spec fn lit_quote() -> Seq<u8> {
    seq![113u8, 117u8, 111u8, 116u8, 101u8]
}

pub fn bytes_quote() -> (r: Vec<u8>)
    ensures
        r@ == lit_quote(),
{
    let a: [u8; 5] = [113, 117, 111, 116, 101];
    let r = vstd::slice::slice_to_vec(a.as_slice());
    proof {
        assert(r@ =~= lit_quote());
    }
    r
}

/// `blockquote`
pub open spec fn lit_blockquote() -> Seq<u8> {
    seq![98u8, 108u8, 111u8, 99u8, 107u8, 113u8, 117u8, 111u8, 116u8, 101u8]
}

pub fn bytes_blockquote() -> (r: Vec<u8>)
    ensures
        r@ == lit_blockquote(),
{
    let a: [u8; 10] = [98, 108, 111, 99, 107, 113, 117, 111, 116, 101];
    let r = vstd::slice::slice_to_vec(a.as_slice());
    proof {
        assert(r@ =~= lit_blockquote());
    }
    r
}

/// `conjecture`
pub open spec fn lit_conjecture() -> Seq<u8> {
    seq![99u8, 111u8, 110u8, 106u8, 101u8, 99u8, 116u8, 117u8, 114u8, 101u8]
}

pub fn bytes_conjecture() -> (r: Vec<u8>)
    ensures
        r@ == lit_conjecture(),
{
    let a: [u8; 10] = [99, 111, 110, 106, 101, 99, 116, 117, 114, 101];
    let r = vstd::slice::slice_to_vec(a.as_slice());
    proof {
        assert(r@ =~= lit_conjecture());
    }
    r
}

/// `conj`
pub open spec fn lit_conj() -> Seq<u8> {
    seq![99u8, 111u8, 110u8, 106u8]
}

pub fn bytes_conj() -> (r: Vec<u8>)
    ensures
        r@ == lit_conj(),
{
    let a: [u8; 4] = [99, 111, 110, 106];
    let r = vstd::slice::slice_to_vec(a.as_slice());
    proof {
        assert(r@ =~= lit_conj());
    }
    r
}

/// `axiom`
pub open spec fn lit_axiom() -> Seq<u8> {
    seq![97u8, 120u8, 105u8, 111u8, 109u8]
}

pub fn bytes_axiom() -> (r: Vec<u8>)
    ensures
        r@ == lit_axiom(),
{
    let a: [u8; 5] = [97, 120, 105, 111, 109];
    let r = vstd::slice::slice_to_vec(a.as_slice());
    proof {
        assert(r@ =~= lit_axiom());
    }
    r
}

/// `ax`
pub open spec fn lit_ax() -> Seq<u8> {
    seq![97u8, 120u8]
}

pub fn bytes_ax() -> (r: Vec<u8>)
    ensures
        r@ == lit_ax(),
{
    let a: [u8; 2] = [97, 120];
    let r = vstd::slice::slice_to_vec(a.as_slice());
    proof {
        assert(r@ =~= lit_ax());
    }
    r
}

/// `exercise`
pub open spec fn lit_exercise() -> Seq<u8> {
    seq![101u8, 120u8, 101u8, 114u8, 99u8, 105u8, 115u8, 101u8]
}

pub fn bytes_exercise() -> (r: Vec<u8>)
    ensures
        r@ == lit_exercise(),
{
    let a: [u8; 8] = [101, 120, 101, 114, 99, 105, 115, 101];
    let r = vstd::slice::slice_to_vec(a.as_slice());
    proof {
        assert(r@ =~= lit_exercise());
    }
    r
}

/// `solution`
pub open spec fn lit_solution() -> Seq<u8> {
    seq![115u8, 111u8, 108u8, 117u8, 116u8, 105u8, 111u8, 110u8]
}

pub fn bytes_solution() -> (r: Vec<u8>)
    ensures
        r@ == lit_solution(),
{
    let a: [u8; 8] = [115, 111, 108, 117, 116, 105, 111, 110];
    let r = vstd::slice::slice_to_vec(a.as_slice());
    proof {
        assert(r@ =~= lit_solution());
    }
    r
}

/// `sol`
pub open spec fn lit_sol() -> Seq<u8> {
    seq![115u8, 111u8, 108u8]
}

pub fn bytes_sol() -> (r: Vec<u8>)
    ensures
        r@ == lit_sol(),
{
    let a: [u8; 3] = [115, 111, 108];
    let r = vstd::slice::slice_to_vec(a.as_slice());
    proof {
        assert(r@ =~= lit_sol());
    }
    r
}

/// `case`
pub open spec fn lit_case() -> Seq<u8> {
    seq![99u8, 97u8, 115u8, 101u8]
}

pub fn bytes_case() -> (r: Vec<u8>)
    ensures
        r@ == lit_case(),
{
    let a: [u8; 4] = [99, 97, 115, 101];
    let r = vstd::slice::slice_to_vec(a.as_slice());
    proof {
        assert(r@ =~= lit_case());
    }
    r
}

/// `Theorem`
pub open spec fn lit_dn_theorem() -> Seq<u8> {
    seq![84u8, 104u8, 101u8, 111u8, 114u8, 101u8, 109u8]
}

pub fn bytes_dn_theorem() -> (r: Vec<u8>)
    ensures
        r@ == lit_dn_theorem(),
{
    let a: [u8; 7] = [84, 104, 101, 111, 114, 101, 109];
    let r = vstd::slice::slice_to_vec(a.as_slice());
    proof {
        assert(r@ =~= lit_dn_theorem());
    }
    r
}

/// `Lemma`
pub open spec fn lit_dn_lemma() -> Seq<u8> {
    seq![76u8, 101u8, 109u8, 109u8, 97u8]
}

pub fn bytes_dn_lemma() -> (r: Vec<u8>)
    ensures
        r@ == lit_dn_lemma(),
{
    let a: [u8; 5] = [76, 101, 109, 109, 97];
    let r = vstd::slice::slice_to_vec(a.as_slice());
    proof {
        assert(r@ =~= lit_dn_lemma());
    }
    r
}

/// `Proposition`
pub open spec fn lit_dn_proposition() -> Seq<u8> {
    seq![80u8, 114u8, 111u8, 112u8, 111u8, 115u8, 105u8, 116u8, 105u8, 111u8, 110u8]
}

pub fn bytes_dn_proposition() -> (r: Vec<u8>)
    ensures
        r@ == lit_dn_proposition(),
{
    let a: [u8; 11] = [80, 114, 111, 112, 111, 115, 105, 116, 105, 111, 110];
    let r = vstd::slice::slice_to_vec(a.as_slice());
    proof {
        assert(r@ =~= lit_dn_proposition());
    }
    r
}

/// `Corollary`
pub open spec fn lit_dn_corollary() -> Seq<u8> {
    seq![67u8, 111u8, 114u8, 111u8, 108u8, 108u8, 97u8, 114u8, 121u8]
}

pub fn bytes_dn_corollary() -> (r: Vec<u8>)
    ensures
        r@ == lit_dn_corollary(),
{
    let a: [u8; 9] = [67, 111, 114, 111, 108, 108, 97, 114, 121];
    let r = vstd::slice::slice_to_vec(a.as_slice());
    proof {
        assert(r@ =~= lit_dn_corollary());
    }
    r
}

/// `Definition`
pub open spec fn lit_dn_definition() -> Seq<u8> {
    seq![68u8, 101u8, 102u8, 105u8, 110u8, 105u8, 116u8, 105u8, 111u8, 110u8]
}

pub fn bytes_dn_definition() -> (r: Vec<u8>)
    ensures
        r@ == lit_dn_definition(),
{
    let a: [u8; 10] = [68, 101, 102, 105, 110, 105, 116, 105, 111, 110];
    let r = vstd::slice::slice_to_vec(a.as_slice());
    proof {
        assert(r@ =~= lit_dn_definition());
    }
    r
}

/// `Example`
pub open spec fn lit_dn_example() -> Seq<u8> {
    seq![69u8, 120u8, 97u8, 109u8, 112u8, 108u8, 101u8]
}

pub fn bytes_dn_example() -> (r: Vec<u8>)
    ensures
        r@ == lit_dn_example(),
{
    let a: [u8; 7] = [69, 120, 97, 109, 112, 108, 101];
    let r = vstd::slice::slice_to_vec(a.as_slice());
    proof {
        assert(r@ =~= lit_dn_example());
    }
    r
}

/// `Remark`
pub open spec fn lit_dn_remark() -> Seq<u8> {
    seq![82u8, 101u8, 109u8, 97u8, 114u8, 107u8]
}

pub fn bytes_dn_remark() -> (r: Vec<u8>)
    ensures
        r@ == lit_dn_remark(),
{
    let a: [u8; 6] = [82, 101, 109, 97, 114, 107];
    let r = vstd::slice::slice_to_vec(a.as_slice());
    proof {
        assert(r@ =~= lit_dn_remark());
    }
    r
}

/// `Proof`
pub open spec fn lit_dn_proof() -> Seq<u8> {
    seq![80u8, 114u8, 111u8, 111u8, 102u8]
}

pub fn bytes_dn_proof() -> (r: Vec<u8>)
    ensures
        r@ == lit_dn_proof(),
{
    let a: [u8; 5] = [80, 114, 111, 111, 102];
    let r = vstd::slice::slice_to_vec(a.as_slice());
    proof {
        assert(r@ =~= lit_dn_proof());
    }
    r
}

/// `Figure`
pub open spec fn lit_dn_figure() -> Seq<u8> {
    seq![70u8, 105u8, 103u8, 117u8, 114u8, 101u8]
}

pub fn bytes_dn_figure() -> (r: Vec<u8>)
    ensures
        r@ == lit_dn_figure(),
{
    let a: [u8; 6] = [70, 105, 103, 117, 114, 101];
    let r = vstd::slice::slice_to_vec(a.as_slice());
    proof {
        assert(r@ =~= lit_dn_figure());
    }
    r
}

/// `Table`
pub open spec fn lit_dn_table() -> Seq<u8> {
    seq![84u8, 97u8, 98u8, 108u8, 101u8]
}

pub fn bytes_dn_table() -> (r: Vec<u8>)
    ensures
        r@ == lit_dn_table(),
{
    let a: [u8; 5] = [84, 97, 98, 108, 101];
    let r = vstd::slice::slice_to_vec(a.as_slice());
    proof {
        assert(r@ =~= lit_dn_table());
    }
    r
}

/// `Algorithm`
pub open spec fn lit_dn_algorithm() -> Seq<u8> {
    seq![65u8, 108u8, 103u8, 111u8, 114u8, 105u8, 116u8, 104u8, 109u8]
}

pub fn bytes_dn_algorithm() -> (r: Vec<u8>)
    ensures
        r@ == lit_dn_algorithm(),
{
    let a: [u8; 9] = [65, 108, 103, 111, 114, 105, 116, 104, 109];
    let r = vstd::slice::slice_to_vec(a.as_slice());
    proof {
        assert(r@ =~= lit_dn_algorithm());
    }
    r
}

/// `Abstract`
pub open spec fn lit_dn_abstract() -> Seq<u8> {
    seq![65u8, 98u8, 115u8, 116u8, 114u8, 97u8, 99u8, 116u8]
}

pub fn bytes_dn_abstract() -> (r: Vec<u8>)
    ensures
        r@ == lit_dn_abstract(),
{
    let a: [u8; 8] = [65, 98, 115, 116, 114, 97, 99, 116];
    let r = vstd::slice::slice_to_vec(a.as_slice());
    proof {
        assert(r@ =~= lit_dn_abstract());
    }
    r
}

/// `Note`
pub open spec fn lit_dn_note() -> Seq<u8> {
    seq![78u8, 111u8, 116u8, 101u8]
}

pub fn bytes_dn_note() -> (r: Vec<u8>)
    ensures
        r@ == lit_dn_note(),
{
    let a: [u8; 4] = [78, 111, 116, 101];
    let r = vstd::slice::slice_to_vec(a.as_slice());
    proof {
        assert(r@ =~= lit_dn_note());
    }
    r
}

/// `Warning`
pub open spec fn lit_dn_warning() -> Seq<u8> {
    seq![87u8, 97u8, 114u8, 110u8, 105u8, 110u8, 103u8]
}

pub fn bytes_dn_warning() -> (r: Vec<u8>)
    ensures
        r@ == lit_dn_warning(),
{
    let a: [u8; 7] = [87, 97, 114, 110, 105, 110, 103];
    let r = vstd::slice::slice_to_vec(a.as_slice());
    proof {
        assert(r@ =~= lit_dn_warning());
    }
    r
}

/// `Quote`
pub open spec fn lit_dn_quote() -> Seq<u8> {
    seq![81u8, 117u8, 111u8, 116u8, 101u8]
}

pub fn bytes_dn_quote() -> (r: Vec<u8>)
    ensures
        r@ == lit_dn_quote(),
{
    let a: [u8; 5] = [81, 117, 111, 116, 101];
    let r = vstd::slice::slice_to_vec(a.as_slice());
    proof {
        assert(r@ =~= lit_dn_quote());
    }
    r
}

/// `Conjecture`
pub open spec fn lit_dn_conjecture() -> Seq<u8> {
    seq![67u8, 111u8, 110u8, 106u8, 101u8, 99u8, 116u8, 117u8, 114u8, 101u8]
}

pub fn bytes_dn_conjecture() -> (r: Vec<u8>)
    ensures
        r@ == lit_dn_conjecture(),
{
    let a: [u8; 10] = [67, 111, 110, 106, 101, 99, 116, 117, 114, 101];
    let r = vstd::slice::slice_to_vec(a.as_slice());
    proof {
        assert(r@ =~= lit_dn_conjecture());
    }
    r
}

/// `Axiom`
pub open spec fn lit_dn_axiom() -> Seq<u8> {
    seq![65u8, 120u8, 105u8, 111u8, 109u8]
}

pub fn bytes_dn_axiom() -> (r: Vec<u8>)
    ensures
        r@ == lit_dn_axiom(),
{
    let a: [u8; 5] = [65, 120, 105, 111, 109];
    let r = vstd::slice::slice_to_vec(a.as_slice());
    proof {
        assert(r@ =~= lit_dn_axiom());
    }
    r
}

/// `Exercise`
pub open spec fn lit_dn_exercise() -> Seq<u8> {
    seq![69u8, 120u8, 101u8, 114u8, 99u8, 105u8, 115u8, 101u8]
}

pub fn bytes_dn_exercise() -> (r: Vec<u8>)
    ensures
        r@ == lit_dn_exercise(),
{
    let a: [u8; 8] = [69, 120, 101, 114, 99, 105, 115, 101];
    let r = vstd::slice::slice_to_vec(a.as_slice());
    proof {
        assert(r@ =~= lit_dn_exercise());
    }
    r
}

/// `Solution`
pub open spec fn lit_dn_solution() -> Seq<u8> {
    seq![83u8, 111u8, 108u8, 117u8, 116u8, 105u8, 111u8, 110u8]
}

pub fn bytes_dn_solution() -> (r: Vec<u8>)
    ensures
        r@ == lit_dn_solution(),
{
    let a: [u8; 8] = [83, 111, 108, 117, 116, 105, 111, 110];
    let r = vstd::slice::slice_to_vec(a.as_slice());
    proof {
        assert(r@ =~= lit_dn_solution());
    }
    r
}

/// `Case`
pub open spec fn lit_dn_case() -> Seq<u8> {
    seq![67u8, 97u8, 115u8, 101u8]
}

pub fn bytes_dn_case() -> (r: Vec<u8>)
    ensures
        r@ == lit_dn_case(),
{
    let a: [u8; 4] = [67, 97, 115, 101];
    let r = vstd::slice::slice_to_vec(a.as_slice());
    proof {
        assert(r@ =~= lit_dn_case());
    }
    r
}

/// `Section `
pub open spec fn lit_section_sp() -> Seq<u8> {
    seq![83u8, 101u8, 99u8, 116u8, 105u8, 111u8, 110u8, 32u8]
}

pub fn bytes_section_sp() -> (r: Vec<u8>)
    ensures
        r@ == lit_section_sp(),
{
    let a: [u8; 8] = [83, 101, 99, 116, 105, 111, 110, 32];
    let r = vstd::slice::slice_to_vec(a.as_slice());
    proof {
        assert(r@ =~= lit_section_sp());
    }
    r
}

/// `(`
pub open spec fn lit_lparen() -> Seq<u8> {
    seq![40u8]
}

pub fn bytes_lparen() -> (r: Vec<u8>)
    ensures
        r@ == lit_lparen(),
{
    let a: [u8; 1] = [40];
    let r = vstd::slice::slice_to_vec(a.as_slice());
    proof {
        assert(r@ =~= lit_lparen());
    }
    r
}

/// `)`
pub open spec fn lit_rparen() -> Seq<u8> {
    seq![41u8]
}

pub fn bytes_rparen() -> (r: Vec<u8>)
    ensures
        r@ == lit_rparen(),
{
    let a: [u8; 1] = [41];
    let r = vstd::slice::slice_to_vec(a.as_slice());
    proof {
        assert(r@ =~= lit_rparen());
    }
    r
}

/// ` `
pub open spec fn lit_space() -> Seq<u8> {
    seq![32u8]
}

pub fn bytes_space() -> (r: Vec<u8>)
    ensures
        r@ == lit_space(),
{
    let a: [u8; 1] = [32];
    let r = vstd::slice::slice_to_vec(a.as_slice());
    proof {
        assert(r@ =~= lit_space());
    }
    r
}

/// `??`
pub open spec fn lit_qq() -> Seq<u8> {
    seq![63u8, 63u8]
}

pub fn bytes_qq() -> (r: Vec<u8>)
    ensures
        r@ == lit_qq(),
{
    let a: [u8; 2] = [63, 63];
    let r = vstd::slice::slice_to_vec(a.as_slice());
    proof {
        assert(r@ =~= lit_qq());
    }
    r
}

/// `fn-`
pub open spec fn lit_fn_dash() -> Seq<u8> {
    seq![102u8, 110u8, 45u8]
}

pub fn bytes_fn_dash() -> (r: Vec<u8>)
    ensures
        r@ == lit_fn_dash(),
{
    let a: [u8; 3] = [102, 110, 45];
    let r = vstd::slice::slice_to_vec(a.as_slice());
    proof {
        assert(r@ =~= lit_fn_dash());
    }
    r
}

/// `(?)`
pub open spec fn lit_unknown_paren() -> Seq<u8> {
    seq![40u8, 63u8, 41u8]
}

pub fn bytes_unknown_paren() -> (r: Vec<u8>)
    ensures
        r@ == lit_unknown_paren(),
{
    let a: [u8; 3] = [40, 63, 41];
    let r = vstd::slice::slice_to_vec(a.as_slice());
    proof {
        assert(r@ =~= lit_unknown_paren());
    }
    r
}

/// `[[toc]]`
pub open spec fn lit_toc() -> Seq<u8> {
    seq![91u8, 91u8, 116u8, 111u8, 99u8, 93u8, 93u8]
}

pub fn bytes_toc() -> (r: Vec<u8>)
    ensures
        r@ == lit_toc(),
{
    let a: [u8; 7] = [91, 91, 116, 111, 99, 93, 93];
    let r = vstd::slice::slice_to_vec(a.as_slice());
    proof {
        assert(r@ =~= lit_toc());
    }
    r
}

/// `---pagebreak---`
pub open spec fn lit_pagebreak_dashes() -> Seq<u8> {
    seq![45u8, 45u8, 45u8, 112u8, 97u8, 103u8, 101u8, 98u8, 114u8, 101u8, 97u8, 107u8, 45u8, 45u8, 45u8]
}

pub fn bytes_pagebreak_dashes() -> (r: Vec<u8>)
    ensures
        r@ == lit_pagebreak_dashes(),
{
    let a: [u8; 15] = [45, 45, 45, 112, 97, 103, 101, 98, 114, 101, 97, 107, 45, 45, 45];
    let r = vstd::slice::slice_to_vec(a.as_slice());
    proof {
        assert(r@ =~= lit_pagebreak_dashes());
    }
    r
}

/// `\pagebreak`
pub open spec fn lit_pagebreak_cmd() -> Seq<u8> {
    seq![92u8, 112u8, 97u8, 103u8, 101u8, 98u8, 114u8, 101u8, 97u8, 107u8]
}

pub fn bytes_pagebreak_cmd() -> (r: Vec<u8>)
    ensures
        r@ == lit_pagebreak_cmd(),
{
    let a: [u8; 10] = [92, 112, 97, 103, 101, 98, 114, 101, 97, 107];
    let r = vstd::slice::slice_to_vec(a.as_slice());
    proof {
        assert(r@ =~= lit_pagebreak_cmd());
    }
    r
}

/// `\newpage`
pub open spec fn lit_newpage_cmd() -> Seq<u8> {
    seq![92u8, 110u8, 101u8, 119u8, 112u8, 97u8, 103u8, 101u8]
}

pub fn bytes_newpage_cmd() -> (r: Vec<u8>)
    ensures
        r@ == lit_newpage_cmd(),
{
    let a: [u8; 8] = [92, 110, 101, 119, 112, 97, 103, 101];
    let r = vstd::slice::slice_to_vec(a.as_slice());
    proof {
        assert(r@ =~= lit_newpage_cmd());
    }
    r
}

/// `<!-- pagebreak -->`
pub open spec fn lit_pagebreak_html() -> Seq<u8> {
    seq![60u8, 33u8, 45u8, 45u8, 32u8, 112u8, 97u8, 103u8, 101u8, 98u8, 114u8, 101u8, 97u8, 107u8, 32u8, 45u8, 45u8, 62u8]
}

pub fn bytes_pagebreak_html() -> (r: Vec<u8>)
    ensures
        r@ == lit_pagebreak_html(),
{
    let a: [u8; 18] = [60, 33, 45, 45, 32, 112, 97, 103, 101, 98, 114, 101, 97, 107, 32, 45, 45, 62];
    let r = vstd::slice::slice_to_vec(a.as_slice());
    proof {
        assert(r@ =~= lit_pagebreak_html());
    }
    r
}

/// `<!-- newpage -->`
pub open spec fn lit_newpage_html() -> Seq<u8> {
    seq![60u8, 33u8, 45u8, 45u8, 32u8, 110u8, 101u8, 119u8, 112u8, 97u8, 103u8, 101u8, 32u8, 45u8, 45u8, 62u8]
}

pub fn bytes_newpage_html() -> (r: Vec<u8>)
    ensures
        r@ == lit_newpage_html(),
{
    let a: [u8; 16] = [60, 33, 45, 45, 32, 110, 101, 119, 112, 97, 103, 101, 32, 45, 45, 62];
    let r = vstd::slice::slice_to_vec(a.as_slice());
    proof {
        assert(r@ =~= lit_newpage_html());
    }
    r
}

/// `\appendix`
pub open spec fn lit_appendix_cmd() -> Seq<u8> {
    seq![92u8, 97u8, 112u8, 112u8, 101u8, 110u8, 100u8, 105u8, 120u8]
}

pub fn bytes_appendix_cmd() -> (r: Vec<u8>)
    ensures
        r@ == lit_appendix_cmd(),
{
    let a: [u8; 9] = [92, 97, 112, 112, 101, 110, 100, 105, 120];
    let r = vstd::slice::slice_to_vec(a.as_slice());
    proof {
        assert(r@ =~= lit_appendix_cmd());
    }
    r
}

/// `---appendix---`
pub open spec fn lit_appendix_dashes() -> Seq<u8> {
    seq![45u8, 45u8, 45u8, 97u8, 112u8, 112u8, 101u8, 110u8, 100u8, 105u8, 120u8, 45u8, 45u8, 45u8]
}

pub fn bytes_appendix_dashes() -> (r: Vec<u8>)
    ensures
        r@ == lit_appendix_dashes(),
{
    let a: [u8; 14] = [45, 45, 45, 97, 112, 112, 101, 110, 100, 105, 120, 45, 45, 45];
    let r = vstd::slice::slice_to_vec(a.as_slice());
    proof {
        assert(r@ =~= lit_appendix_dashes());
    }
    r
}

/// `<!-- appendix -->`
pub open spec fn lit_appendix_html() -> Seq<u8> {
    seq![60u8, 33u8, 45u8, 45u8, 32u8, 97u8, 112u8, 112u8, 101u8, 110u8, 100u8, 105u8, 120u8, 32u8, 45u8, 45u8, 62u8]
}

pub fn bytes_appendix_html() -> (r: Vec<u8>)
    ensures
        r@ == lit_appendix_html(),
{
    let a: [u8; 17] = [60, 33, 45, 45, 32, 97, 112, 112, 101, 110, 100, 105, 120, 32, 45, 45, 62];
    let r = vstd::slice::slice_to_vec(a.as_slice());
    proof {
        assert(r@ =~= lit_appendix_html());
    }
    r
}

/// `---`
pub open spec fn lit_dashes3() -> Seq<u8> {
    seq![45u8, 45u8, 45u8]
}

pub fn bytes_dashes3() -> (r: Vec<u8>)
    ensures
        r@ == lit_dashes3(),
{
    let a: [u8; 3] = [45, 45, 45];
    let r = vstd::slice::slice_to_vec(a.as_slice());
    proof {
        assert(r@ =~= lit_dashes3());
    }
    r
}

/// `***`
pub open spec fn lit_stars3() -> Seq<u8> {
    seq![42u8, 42u8, 42u8]
}

pub fn bytes_stars3() -> (r: Vec<u8>)
    ensures
        r@ == lit_stars3(),
{
    let a: [u8; 3] = [42, 42, 42];
    let r = vstd::slice::slice_to_vec(a.as_slice());
    proof {
        assert(r@ =~= lit_stars3());
    }
    r
}

/// `___`
pub open spec fn lit_unders3() -> Seq<u8> {
    seq![95u8, 95u8, 95u8]
}

pub fn bytes_unders3() -> (r: Vec<u8>)
    ensures
        r@ == lit_unders3(),
{
    let a: [u8; 3] = [95, 95, 95];
    let r = vstd::slice::slice_to_vec(a.as_slice());
    proof {
        assert(r@ =~= lit_unders3());
    }
    r
}

/// `````
pub open spec fn lit_backticks3() -> Seq<u8> {
    seq![96u8, 96u8, 96u8]
}

pub fn bytes_backticks3() -> (r: Vec<u8>)
    ensures
        r@ == lit_backticks3(),
{
    let a: [u8; 3] = [96, 96, 96];
    let r = vstd::slice::slice_to_vec(a.as_slice());
    proof {
        assert(r@ =~= lit_backticks3());
    }
    r
}

/// `~~~`
pub open spec fn lit_tildes3() -> Seq<u8> {
    seq![126u8, 126u8, 126u8]
}

pub fn bytes_tildes3() -> (r: Vec<u8>)
    ensures
        r@ == lit_tildes3(),
{
    let a: [u8; 3] = [126, 126, 126];
    let r = vstd::slice::slice_to_vec(a.as_slice());
    proof {
        assert(r@ =~= lit_tildes3());
    }
    r
}

/// `:::`
pub open spec fn lit_colons3() -> Seq<u8> {
    seq![58u8, 58u8, 58u8]
}

pub fn bytes_colons3() -> (r: Vec<u8>)
    ensures
        r@ == lit_colons3(),
{
    let a: [u8; 3] = [58, 58, 58];
    let r = vstd::slice::slice_to_vec(a.as_slice());
    proof {
        assert(r@ =~= lit_colons3());
    }
    r
}

/// `::: `
pub open spec fn lit_colons3_sp() -> Seq<u8> {
    seq![58u8, 58u8, 58u8, 32u8]
}

pub fn bytes_colons3_sp() -> (r: Vec<u8>)
    ensures
        r@ == lit_colons3_sp(),
{
    let a: [u8; 4] = [58, 58, 58, 32];
    let r = vstd::slice::slice_to_vec(a.as_slice());
    proof {
        assert(r@ =~= lit_colons3_sp());
    }
    r
}

/// `{#`
pub open spec fn lit_label_open() -> Seq<u8> {
    seq![123u8, 35u8]
}

pub fn bytes_label_open() -> (r: Vec<u8>)
    ensures
        r@ == lit_label_open(),
{
    let a: [u8; 2] = [123, 35];
    let r = vstd::slice::slice_to_vec(a.as_slice());
    proof {
        assert(r@ =~= lit_label_open());
    }
    r
}

/// `$$`
pub open spec fn lit_dollars2() -> Seq<u8> {
    seq![36u8, 36u8]
}

pub fn bytes_dollars2() -> (r: Vec<u8>)
    ensures
        r@ == lit_dollars2(),
{
    let a: [u8; 2] = [36, 36];
    let r = vstd::slice::slice_to_vec(a.as_slice());
    proof {
        assert(r@ =~= lit_dollars2());
    }
    r
}

/// `[@`
pub open spec fn lit_cite_open() -> Seq<u8> {
    seq![91u8, 64u8]
}

pub fn bytes_cite_open() -> (r: Vec<u8>)
    ensures
        r@ == lit_cite_open(),
{
    let a: [u8; 2] = [91, 64];
    let r = vstd::slice::slice_to_vec(a.as_slice());
    proof {
        assert(r@ =~= lit_cite_open());
    }
    r
}

/// `^[`
pub open spec fn lit_foot_inline_open() -> Seq<u8> {
    seq![94u8, 91u8]
}

pub fn bytes_foot_inline_open() -> (r: Vec<u8>)
    ensures
        r@ == lit_foot_inline_open(),
{
    let a: [u8; 2] = [94, 91];
    let r = vstd::slice::slice_to_vec(a.as_slice());
    proof {
        assert(r@ =~= lit_foot_inline_open());
    }
    r
}

/// `[^`
pub open spec fn lit_foot_ref_open() -> Seq<u8> {
    seq![91u8, 94u8]
}

pub fn bytes_foot_ref_open() -> (r: Vec<u8>)
    ensures
        r@ == lit_foot_ref_open(),
{
    let a: [u8; 2] = [91, 94];
    let r = vstd::slice::slice_to_vec(a.as_slice());
    proof {
        assert(r@ =~= lit_foot_ref_open());
    }
    r
}

/// `~~`
pub open spec fn lit_tilde2() -> Seq<u8> {
    seq![126u8, 126u8]
}

pub fn bytes_tilde2() -> (r: Vec<u8>)
    ensures
        r@ == lit_tilde2(),
{
    let a: [u8; 2] = [126, 126];
    let r = vstd::slice::slice_to_vec(a.as_slice());
    proof {
        assert(r@ =~= lit_tilde2());
    }
    r
}

/// `**`
pub open spec fn lit_stars2() -> Seq<u8> {
    seq![42u8, 42u8]
}

pub fn bytes_stars2() -> (r: Vec<u8>)
    ensures
        r@ == lit_stars2(),
{
    let a: [u8; 2] = [42, 42];
    let r = vstd::slice::slice_to_vec(a.as_slice());
    proof {
        assert(r@ =~= lit_stars2());
    }
    r
}

/// `__`
pub open spec fn lit_unders2() -> Seq<u8> {
    seq![95u8, 95u8]
}

pub fn bytes_unders2() -> (r: Vec<u8>)
    ensures
        r@ == lit_unders2(),
{
    let a: [u8; 2] = [95, 95];
    let r = vstd::slice::slice_to_vec(a.as_slice());
    proof {
        assert(r@ =~= lit_unders2());
    }
    r
}

/// `Table:`
pub open spec fn lit_table_colon() -> Seq<u8> {
    seq![84u8, 97u8, 98u8, 108u8, 101u8, 58u8]
}

pub fn bytes_table_colon() -> (r: Vec<u8>)
    ensures
        r@ == lit_table_colon(),
{
    let a: [u8; 6] = [84, 97, 98, 108, 101, 58];
    let r = vstd::slice::slice_to_vec(a.as_slice());
    proof {
        assert(r@ =~= lit_table_colon());
    }
    r
}

/// `Caption:`
pub open spec fn lit_caption_colon() -> Seq<u8> {
    seq![67u8, 97u8, 112u8, 116u8, 105u8, 111u8, 110u8, 58u8]
}

pub fn bytes_caption_colon() -> (r: Vec<u8>)
    ensures
        r@ == lit_caption_colon(),
{
    let a: [u8; 8] = [67, 97, 112, 116, 105, 111, 110, 58];
    let r = vstd::slice::slice_to_vec(a.as_slice());
    proof {
        assert(r@ =~= lit_caption_colon());
    }
    r
}

/// `+++`
pub open spec fn lit_plus3() -> Seq<u8> {
    seq![43u8, 43u8, 43u8]
}

pub fn bytes_plus3() -> (r: Vec<u8>)
    ensures
        r@ == lit_plus3(),
{
    let a: [u8; 3] = [43, 43, 43];
    let r = vstd::slice::slice_to_vec(a.as_slice());
    proof {
        assert(r@ =~= lit_plus3());
    }
    r
}

/// `\n+++`
pub open spec fn lit_nl_plus3() -> Seq<u8> {
    seq![10u8, 43u8, 43u8, 43u8]
}

pub fn bytes_nl_plus3() -> (r: Vec<u8>)
    ensures
        r@ == lit_nl_plus3(),
{
    let a: [u8; 4] = [10, 43, 43, 43];
    let r = vstd::slice::slice_to_vec(a.as_slice());
    proof {
        assert(r@ =~= lit_nl_plus3());
    }
    r
}

/// `title`
pub open spec fn lit_fm_title() -> Seq<u8> {
    seq![116u8, 105u8, 116u8, 108u8, 101u8]
}

pub fn bytes_fm_title() -> (r: Vec<u8>)
    ensures
        r@ == lit_fm_title(),
{
    let a: [u8; 5] = [116, 105, 116, 108, 101];
    let r = vstd::slice::slice_to_vec(a.as_slice());
    proof {
        assert(r@ =~= lit_fm_title());
    }
    r
}

/// `authors`
pub open spec fn lit_fm_authors() -> Seq<u8> {
    seq![97u8, 117u8, 116u8, 104u8, 111u8, 114u8, 115u8]
}

pub fn bytes_fm_authors() -> (r: Vec<u8>)
    ensures
        r@ == lit_fm_authors(),
{
    let a: [u8; 7] = [97, 117, 116, 104, 111, 114, 115];
    let r = vstd::slice::slice_to_vec(a.as_slice());
    proof {
        assert(r@ =~= lit_fm_authors());
    }
    r
}

/// `author`
pub open spec fn lit_fm_author() -> Seq<u8> {
    seq![97u8, 117u8, 116u8, 104u8, 111u8, 114u8]
}

pub fn bytes_fm_author() -> (r: Vec<u8>)
    ensures
        r@ == lit_fm_author(),
{
    let a: [u8; 6] = [97, 117, 116, 104, 111, 114];
    let r = vstd::slice::slice_to_vec(a.as_slice());
    proof {
        assert(r@ =~= lit_fm_author());
    }
    r
}

/// `date`
pub open spec fn lit_fm_date() -> Seq<u8> {
    seq![100u8, 97u8, 116u8, 101u8]
}

pub fn bytes_fm_date() -> (r: Vec<u8>)
    ensures
        r@ == lit_fm_date(),
{
    let a: [u8; 4] = [100, 97, 116, 101];
    let r = vstd::slice::slice_to_vec(a.as_slice());
    proof {
        assert(r@ =~= lit_fm_date());
    }
    r
}

/// `macros`
pub open spec fn lit_fm_macros() -> Seq<u8> {
    seq![109u8, 97u8, 99u8, 114u8, 111u8, 115u8]
}

pub fn bytes_fm_macros() -> (r: Vec<u8>)
    ensures
        r@ == lit_fm_macros(),
{
    let a: [u8; 6] = [109, 97, 99, 114, 111, 115];
    let r = vstd::slice::slice_to_vec(a.as_slice());
    proof {
        assert(r@ =~= lit_fm_macros());
    }
    r
}

/// `bibliography`
pub open spec fn lit_fm_bibliography() -> Seq<u8> {
    seq![98u8, 105u8, 98u8, 108u8, 105u8, 111u8, 103u8, 114u8, 97u8, 112u8, 104u8, 121u8]
}

pub fn bytes_fm_bibliography() -> (r: Vec<u8>)
    ensures
        r@ == lit_fm_bibliography(),
{
    let a: [u8; 12] = [98, 105, 98, 108, 105, 111, 103, 114, 97, 112, 104, 121];
    let r = vstd::slice::slice_to_vec(a.as_slice());
    proof {
        assert(r@ =~= lit_fm_bibliography());
    }
    r
}

/// `Invalid TOML: `
pub open spec fn lit_invalid_toml() -> Seq<u8> {
    seq![73u8, 110u8, 118u8, 97u8, 108u8, 105u8, 100u8, 32u8, 84u8, 79u8, 77u8, 76u8, 58u8, 32u8]
}

pub fn bytes_invalid_toml() -> (r: Vec<u8>)
    ensures
        r@ == lit_invalid_toml(),
{
    let a: [u8; 14] = [73, 110, 118, 97, 108, 105, 100, 32, 84, 79, 77, 76, 58, 32];
    let r = vstd::slice::slice_to_vec(a.as_slice());
    proof {
        assert(r@ =~= lit_invalid_toml());
    }
    r
}

/// `Unclosed front matter (missing closing +++)`
pub open spec fn lit_unclosed_fm() -> Seq<u8> {
    seq![85u8, 110u8, 99u8, 108u8, 111u8, 115u8, 101u8, 100u8, 32u8, 102u8, 114u8, 111u8, 110u8, 116u8, 32u8, 109u8, 97u8, 116u8, 116u8, 101u8, 114u8, 32u8, 40u8, 109u8, 105u8, 115u8, 115u8, 105u8, 110u8, 103u8, 32u8, 99u8, 108u8, 111u8, 115u8, 105u8, 110u8, 103u8, 32u8, 43u8, 43u8, 43u8, 41u8]
}

pub fn bytes_unclosed_fm() -> (r: Vec<u8>)
    ensures
        r@ == lit_unclosed_fm(),
{
    let a: [u8; 43] = [85, 110, 99, 108, 111, 115, 101, 100, 32, 102, 114, 111, 110, 116, 32, 109, 97, 116, 116, 101, 114, 32, 40, 109, 105, 115, 115, 105, 110, 103, 32, 99, 108, 111, 115, 105, 110, 103, 32, 43, 43, 43, 41];
    let r = vstd::slice::slice_to_vec(a.as_slice());
    proof {
        assert(r@ =~= lit_unclosed_fm());
    }
    r
}

/// `comment`
pub open spec fn lit_bib_comment() -> Seq<u8> {
    seq![99u8, 111u8, 109u8, 109u8, 101u8, 110u8, 116u8]
}

pub fn bytes_bib_comment() -> (r: Vec<u8>)
    ensures
        r@ == lit_bib_comment(),
{
    let a: [u8; 7] = [99, 111, 109, 109, 101, 110, 116];
    let r = vstd::slice::slice_to_vec(a.as_slice());
    proof {
        assert(r@ =~= lit_bib_comment());
    }
    r
}

/// `preamble`
pub open spec fn lit_bib_preamble() -> Seq<u8> {
    seq![112u8, 114u8, 101u8, 97u8, 109u8, 98u8, 108u8, 101u8]
}

pub fn bytes_bib_preamble() -> (r: Vec<u8>)
    ensures
        r@ == lit_bib_preamble(),
{
    let a: [u8; 8] = [112, 114, 101, 97, 109, 98, 108, 101];
    let r = vstd::slice::slice_to_vec(a.as_slice());
    proof {
        assert(r@ =~= lit_bib_preamble());
    }
    r
}

/// `string`
pub open spec fn lit_bib_string() -> Seq<u8> {
    seq![115u8, 116u8, 114u8, 105u8, 110u8, 103u8]
}

pub fn bytes_bib_string() -> (r: Vec<u8>)
    ensures
        r@ == lit_bib_string(),
{
    let a: [u8; 6] = [115, 116, 114, 105, 110, 103];
    let r = vstd::slice::slice_to_vec(a.as_slice());
    proof {
        assert(r@ =~= lit_bib_string());
    }
    r
}

/// `title`
pub open spec fn lit_bib_title() -> Seq<u8> {
    seq![116u8, 105u8, 116u8, 108u8, 101u8]
}

pub fn bytes_bib_title() -> (r: Vec<u8>)
    ensures
        r@ == lit_bib_title(),
{
    let a: [u8; 5] = [116, 105, 116, 108, 101];
    let r = vstd::slice::slice_to_vec(a.as_slice());
    proof {
        assert(r@ =~= lit_bib_title());
    }
    r
}

/// `author`
pub open spec fn lit_bib_author() -> Seq<u8> {
    seq![97u8, 117u8, 116u8, 104u8, 111u8, 114u8]
}

pub fn bytes_bib_author() -> (r: Vec<u8>)
    ensures
        r@ == lit_bib_author(),
{
    let a: [u8; 6] = [97, 117, 116, 104, 111, 114];
    let r = vstd::slice::slice_to_vec(a.as_slice());
    proof {
        assert(r@ =~= lit_bib_author());
    }
    r
}

/// `year`
pub open spec fn lit_bib_year() -> Seq<u8> {
    seq![121u8, 101u8, 97u8, 114u8]
}

pub fn bytes_bib_year() -> (r: Vec<u8>)
    ensures
        r@ == lit_bib_year(),
{
    let a: [u8; 4] = [121, 101, 97, 114];
    let r = vstd::slice::slice_to_vec(a.as_slice());
    proof {
        assert(r@ =~= lit_bib_year());
    }
    r
}

/// `journal`
pub open spec fn lit_bib_journal() -> Seq<u8> {
    seq![106u8, 111u8, 117u8, 114u8, 110u8, 97u8, 108u8]
}

pub fn bytes_bib_journal() -> (r: Vec<u8>)
    ensures
        r@ == lit_bib_journal(),
{
    let a: [u8; 7] = [106, 111, 117, 114, 110, 97, 108];
    let r = vstd::slice::slice_to_vec(a.as_slice());
    proof {
        assert(r@ =~= lit_bib_journal());
    }
    r
}

/// `booktitle`
pub open spec fn lit_bib_booktitle() -> Seq<u8> {
    seq![98u8, 111u8, 111u8, 107u8, 116u8, 105u8, 116u8, 108u8, 101u8]
}

pub fn bytes_bib_booktitle() -> (r: Vec<u8>)
    ensures
        r@ == lit_bib_booktitle(),
{
    let a: [u8; 9] = [98, 111, 111, 107, 116, 105, 116, 108, 101];
    let r = vstd::slice::slice_to_vec(a.as_slice());
    proof {
        assert(r@ =~= lit_bib_booktitle());
    }
    r
}

/// `publisher`
pub open spec fn lit_bib_publisher() -> Seq<u8> {
    seq![112u8, 117u8, 98u8, 108u8, 105u8, 115u8, 104u8, 101u8, 114u8]
}

pub fn bytes_bib_publisher() -> (r: Vec<u8>)
    ensures
        r@ == lit_bib_publisher(),
{
    let a: [u8; 9] = [112, 117, 98, 108, 105, 115, 104, 101, 114];
    let r = vstd::slice::slice_to_vec(a.as_slice());
    proof {
        assert(r@ =~= lit_bib_publisher());
    }
    r
}

/// `volume`
pub open spec fn lit_bib_volume() -> Seq<u8> {
    seq![118u8, 111u8, 108u8, 117u8, 109u8, 101u8]
}

pub fn bytes_bib_volume() -> (r: Vec<u8>)
    ensures
        r@ == lit_bib_volume(),
{
    let a: [u8; 6] = [118, 111, 108, 117, 109, 101];
    let r = vstd::slice::slice_to_vec(a.as_slice());
    proof {
        assert(r@ =~= lit_bib_volume());
    }
    r
}

/// `number`
pub open spec fn lit_bib_number() -> Seq<u8> {
    seq![110u8, 117u8, 109u8, 98u8, 101u8, 114u8]
}

pub fn bytes_bib_number() -> (r: Vec<u8>)
    ensures
        r@ == lit_bib_number(),
{
    let a: [u8; 6] = [110, 117, 109, 98, 101, 114];
    let r = vstd::slice::slice_to_vec(a.as_slice());
    proof {
        assert(r@ =~= lit_bib_number());
    }
    r
}

/// `pages`
pub open spec fn lit_bib_pages() -> Seq<u8> {
    seq![112u8, 97u8, 103u8, 101u8, 115u8]
}

pub fn bytes_bib_pages() -> (r: Vec<u8>)
    ensures
        r@ == lit_bib_pages(),
{
    let a: [u8; 5] = [112, 97, 103, 101, 115];
    let r = vstd::slice::slice_to_vec(a.as_slice());
    proof {
        assert(r@ =~= lit_bib_pages());
    }
    r
}

/// `doi`
pub open spec fn lit_bib_doi() -> Seq<u8> {
    seq![100u8, 111u8, 105u8]
}

pub fn bytes_bib_doi() -> (r: Vec<u8>)
    ensures
        r@ == lit_bib_doi(),
{
    let a: [u8; 3] = [100, 111, 105];
    let r = vstd::slice::slice_to_vec(a.as_slice());
    proof {
        assert(r@ =~= lit_bib_doi());
    }
    r
}

/// `url`
pub open spec fn lit_bib_url() -> Seq<u8> {
    seq![117u8, 114u8, 108u8]
}

pub fn bytes_bib_url() -> (r: Vec<u8>)
    ensures
        r@ == lit_bib_url(),
{
    let a: [u8; 3] = [117, 114, 108];
    let r = vstd::slice::slice_to_vec(a.as_slice());
    proof {
        assert(r@ =~= lit_bib_url());
    }
    r
}

/// ` and `
pub open spec fn lit_sp_and_sp() -> Seq<u8> {
    seq![32u8, 97u8, 110u8, 100u8, 32u8]
}

pub fn bytes_sp_and_sp() -> (r: Vec<u8>)
    ensures
        r@ == lit_sp_and_sp(),
{
    let a: [u8; 5] = [32, 97, 110, 100, 32];
    let r = vstd::slice::slice_to_vec(a.as_slice());
    proof {
        assert(r@ =~= lit_sp_and_sp());
    }
    r
}

} // verus!
