use vstd::prelude::*;
use vstd::string::StringExecFns;
use burn_backend::ops::ConvTransposeOptions;
use crate::options::{conv_transpose_options_of, new_conv_transpose_options};
use crate::probe::{options_valid, spec_case, CaseSpec};
use crate::values::{lemma_bounded_product_fits, product_fits};
use crate::text::{decimal, filter_matches, filter_selects, push_decimal, same_text};

verus! {

/// A case of the dispatch-threshold sweep; its dilation is one on every axis.
pub struct SweepCase {
    pub name: String,
    pub x: [usize; 5],
    pub co: usize,
    pub kernel: [usize; 3],
    pub stride: [usize; 3],
    pub pad: [usize; 3],
    pub groups: usize,
}

impl View for SweepCase {
    type V = CaseSpec;

    open spec fn view(&self) -> CaseSpec {
        spec_case(
            self.name@,
            self.x@,
            self.co,
            self.kernel@,
            self.stride@,
            self.pad@,
            seq![1usize, 1, 1],
            self.groups,
        )
    }
}

/// The element type a sweep runs in.
pub enum SweepDtype {
    F16,
    F32,
    F64,
}

pub open spec fn case_views(cases: Seq<SweepCase>) -> Seq<CaseSpec> {
    cases.map_values(|c: SweepCase| c@)
}

/// The weight shape of a sweep case: `[in_channels, out_channels, kd, kh, kw]`.
pub open spec fn sweep_weight_shape(c: CaseSpec) -> Seq<usize> {
    seq![c.x[1], c.co, c.kernel[0], c.kernel[1], c.kernel[2]]
}

// 1D cases with kernel 8, stride 2 and padding 3.
pub open spec fn kernel8_1d(name: Seq<char>, ci: usize, co: usize, work: usize) -> CaseSpec {
    spec_case(
        name,
        seq![1usize, ci, 1, 1, (work as int / (co * 8)) as usize],
        co,
        seq![1usize, 1, 8],
        seq![1usize, 1, 2],
        seq![0usize, 0, 3],
        seq![1usize, 1, 1],
        1,
    )
}

// 2D cases with kernel 4, stride 2 and padding 1 on square inputs.
pub open spec fn kernel4_2d(name: Seq<char>, ci: usize, co: usize, side: usize) -> CaseSpec {
    spec_case(
        name,
        seq![1usize, ci, 1, side, side],
        co,
        seq![1usize, 4, 4],
        seq![1usize, 2, 2],
        seq![0usize, 1, 1],
        seq![1usize, 1, 1],
        1,
    )
}

// 1D cases with kernel 16, stride 2 and padding 7, and eight output channels.
pub open spec fn kernel16_1d(name: Seq<char>, batch: usize, ci: usize, length: usize, groups: usize) -> CaseSpec {
    spec_case(
        name,
        seq![batch, ci, 1, 1, length],
        8,
        seq![1usize, 1, 16],
        seq![1usize, 1, 2],
        seq![0usize, 0, 7],
        seq![1usize, 1, 1],
        groups,
    )
}

pub open spec fn threshold_1d(co: usize, work: usize) -> CaseSpec {
    kernel8_1d("threshold_1d_co"@ + decimal(co as nat) + "_work"@ + decimal(work as nat), 16, co, work)
}

pub open spec fn threshold_2d(co: usize, side: usize) -> CaseSpec {
    kernel4_2d("threshold_2d_co"@ + decimal(co as nat) + "_side"@ + decimal(side as nat), 32, co, side)
}

pub open spec fn threshold_2d_co64(side: usize, ci: usize) -> CaseSpec {
    kernel4_2d("threshold_2d_co64_side"@ + decimal(side as nat), ci, 64, side)
}

pub open spec fn threshold_3d(side: usize) -> CaseSpec {
    spec_case(
        "threshold_3d_side"@ + decimal(side as nat),
        seq![1usize, 8, side, side, side],
        8,
        seq![3usize, 3, 3],
        seq![2usize, 2, 2],
        seq![1usize, 1, 1],
        seq![1usize, 1, 1],
        1,
    )
}

pub open spec fn gemm_1d(co: usize, ci: usize, work: usize) -> CaseSpec {
    kernel8_1d(
        "gemm_1d_co"@ + decimal(co as nat) + "_ci"@ + decimal(ci as nat) + "_work"@ + decimal(work as nat),
        ci,
        co,
        work,
    )
}

pub open spec fn gemm_2d(co: usize, ci: usize, side: usize) -> CaseSpec {
    kernel4_2d(
        "gemm_2d_co"@ + decimal(co as nat) + "_ci"@ + decimal(ci as nat) + "_side"@ + decimal(side as nat),
        ci,
        co,
        side,
    )
}

pub open spec fn grouped(groups: usize, length: usize) -> CaseSpec {
    kernel16_1d("groups_g"@ + decimal(groups as nat) + "_l"@ + decimal(length as nat), 1, (4 * groups) as usize, length, groups)
}

pub open spec fn batched(batch: usize) -> CaseSpec {
    kernel16_1d("groups_batch"@ + decimal(batch as nat) + "_l2048"@, batch, 4, 2048, 1)
}

pub open spec fn threshold_1d_cos() -> Seq<usize> { seq![2usize, 8, 32, 64] }
pub open spec fn threshold_1d_works() -> Seq<usize> { seq![8192usize, 16384, 32768, 65536, 131072, 262144, 524288] }
pub open spec fn threshold_2d_cos() -> Seq<usize> { seq![8usize, 32] }
pub open spec fn threshold_2d_sides() -> Seq<usize> { seq![4usize, 7, 8, 11, 14, 16, 24, 32] }
pub open spec fn threshold_3d_sides() -> Seq<usize> { seq![3usize, 4, 6, 8, 12] }
pub open spec fn gemm_1d_cis() -> Seq<usize> { seq![64usize, 128, 512] }
pub open spec fn gemm_1d_works() -> Seq<usize> { seq![32768usize, 65536, 131072, 196608, 245760] }
pub open spec fn gemm_2d_cos() -> Seq<usize> { seq![8usize, 32, 64] }
pub open spec fn gemm_2d_cis() -> Seq<usize> { seq![128usize, 512] }
pub open spec fn gemm_2d_sides() -> Seq<usize> { seq![7usize, 8, 11, 14] }
pub open spec fn group_counts() -> Seq<usize> { seq![2usize, 3, 4, 5, 7, 8, 9, 16] }
pub open spec fn group_lengths() -> Seq<usize> { seq![512usize, 2048, 8192] }
pub open spec fn batch_sizes() -> Seq<usize> { seq![4usize, 5, 8] }

/// The sweep's cases in order: each family walks its parameter lists with the
/// last list varying fastest.
pub open spec fn sweep_table() -> Seq<CaseSpec> {
    Seq::new(28, |k: int| threshold_1d(threshold_1d_cos()[k / 7], threshold_1d_works()[k % 7]))
        + Seq::new(16, |k: int| threshold_2d(threshold_2d_cos()[k / 8], threshold_2d_sides()[k % 8]))
        + seq![threshold_2d_co64(7, 64), threshold_2d_co64(14, 128)]
        + Seq::new(5, |k: int| threshold_3d(threshold_3d_sides()[k]))
        + Seq::new(60, |k: int| gemm_1d(threshold_1d_cos()[k / 15], gemm_1d_cis()[(k / 5) % 3], gemm_1d_works()[k % 5]))
        + Seq::new(24, |k: int| gemm_2d(gemm_2d_cos()[k / 8], gemm_2d_cis()[(k / 4) % 2], gemm_2d_sides()[k % 4]))
        + Seq::new(24, |k: int| grouped(group_counts()[k / 3], group_lengths()[k % 3]))
        + Seq::new(3, |k: int| batched(batch_sizes()[k]))
}

proof fn lemma_views_push(cases: Seq<SweepCase>, c: SweepCase)
    ensures
        case_views(cases.push(c)) == case_views(cases).push(c@),
{
    assert(case_views(cases.push(c)) =~= case_views(cases).push(c@));
}

proof fn lemma_views_append(a: Seq<SweepCase>, b: Seq<SweepCase>)
    ensures
        case_views(a + b) == case_views(a) + case_views(b),
{
    assert(case_views(a + b) =~= case_views(a) + case_views(b));
}

proof fn lemma_take_push<A>(s: Seq<A>, k: int)
    requires
        0 <= k < s.len(),
    ensures
        s.take(k + 1) == s.take(k).push(s[k]),
{
    assert(s.take(k + 1) =~= s.take(k).push(s[k]));
}

fn label(prefix: &str, a: usize) -> (s: String)
    ensures
        s@ == prefix@ + decimal(a as nat),
{
    let mut s = <String as StringExecFns>::from_str(prefix);
    push_decimal(&mut s, a);
    s
}

fn extend_label(s: &mut String, infix: &str, a: usize)
    ensures
        final(s)@ == old(s)@ + infix@ + decimal(a as nat),
{
    s.append(infix);
    push_decimal(s, a);
}

fn kernel8_1d_case(name: String, ci: usize, co: usize, work: usize) -> (c: SweepCase)
    requires
        0 < co <= 64,
    ensures
        c@ == kernel8_1d(name@, ci, co, work),
{
    let c = SweepCase {
        name,
        x: [1, ci, 1, 1, work / (co * 8)],
        co,
        kernel: [1, 1, 8],
        stride: [1, 1, 2],
        pad: [0, 0, 3],
        groups: 1,
    };
    assert(c@ =~= kernel8_1d(name@, ci, co, work));
    c
}

fn kernel4_2d_case(name: String, ci: usize, co: usize, side: usize) -> (c: SweepCase)
    ensures
        c@ == kernel4_2d(name@, ci, co, side),
{
    let c = SweepCase {
        name,
        x: [1, ci, 1, side, side],
        co,
        kernel: [1, 4, 4],
        stride: [1, 2, 2],
        pad: [0, 1, 1],
        groups: 1,
    };
    assert(c@ =~= kernel4_2d(name@, ci, co, side));
    c
}

fn kernel16_1d_case(name: String, batch: usize, ci: usize, length: usize, groups: usize) -> (c: SweepCase)
    ensures
        c@ == kernel16_1d(name@, batch, ci, length, groups),
{
    let c = SweepCase {
        name,
        x: [batch, ci, 1, 1, length],
        co: 8,
        kernel: [1, 1, 16],
        stride: [1, 1, 2],
        pad: [0, 0, 7],
        groups,
    };
    assert(c@ =~= kernel16_1d(name@, batch, ci, length, groups));
    c
}

fn threshold_1d_cases() -> (cases: Vec<SweepCase>)
    ensures
        case_views(cases@) == sweep_table().subrange(0, 28),
{
    let ghost fam = Seq::new(28, |k: int| threshold_1d(threshold_1d_cos()[k / 7], threshold_1d_works()[k % 7]));
    assert(fam =~= sweep_table().subrange(0, 28));
    let cos: [usize; 4] = [2, 8, 32, 64];
    let works: [usize; 7] = [8192, 16384, 32768, 65536, 131072, 262144, 524288];
    assert(cos@ =~= threshold_1d_cos());
    assert(works@ =~= threshold_1d_works());
    let mut cases: Vec<SweepCase> = Vec::new();
    assert(case_views(cases@) =~= fam.take(0));
    for i in 0..4
        invariant
            cos@ == threshold_1d_cos(),
            works@ == threshold_1d_works(),
            fam == Seq::new(28, |k: int| threshold_1d(threshold_1d_cos()[k / 7], threshold_1d_works()[k % 7])),
            case_views(cases@) == fam.take(i as int * 7),
    {
        for j in 0..7
            invariant
                0 <= i < 4,
                cos@ == threshold_1d_cos(),
                works@ == threshold_1d_works(),
                fam == Seq::new(28, |k: int| threshold_1d(threshold_1d_cos()[k / 7], threshold_1d_works()[k % 7])),
                case_views(cases@) == fam.take(i as int * 7 + j as int),
        {
            let co = cos[i];
            let work = works[j];
            let mut name = label("threshold_1d_co", co);
            extend_label(&mut name, "_work", work);
            let c = kernel8_1d_case(name, 16, co, work);
            proof {
                let k = i as int * 7 + j as int;
                assert(k / 7 == i && k % 7 == j) by (nonlinear_arith)
                    requires
                        k == i * 7 + j,
                        0 <= j < 7,
                        0 <= i,
                ;
                lemma_views_push(cases@, c);
                lemma_take_push(fam, k);
            }
            cases.push(c);
        }
    }
    assert(fam.take(28) =~= fam);
    cases
}

fn threshold_2d_cases() -> (cases: Vec<SweepCase>)
    ensures
        case_views(cases@) == sweep_table().subrange(28, 44),
{
    let ghost fam = Seq::new(16, |k: int| threshold_2d(threshold_2d_cos()[k / 8], threshold_2d_sides()[k % 8]));
    assert(fam =~= sweep_table().subrange(28, 44));
    let cos: [usize; 2] = [8, 32];
    let sides: [usize; 8] = [4, 7, 8, 11, 14, 16, 24, 32];
    assert(cos@ =~= threshold_2d_cos());
    assert(sides@ =~= threshold_2d_sides());
    let mut cases: Vec<SweepCase> = Vec::new();
    assert(case_views(cases@) =~= fam.take(0));
    for i in 0..2
        invariant
            cos@ == threshold_2d_cos(),
            sides@ == threshold_2d_sides(),
            fam == Seq::new(16, |k: int| threshold_2d(threshold_2d_cos()[k / 8], threshold_2d_sides()[k % 8])),
            case_views(cases@) == fam.take(i as int * 8),
    {
        for j in 0..8
            invariant
                0 <= i < 2,
                cos@ == threshold_2d_cos(),
                sides@ == threshold_2d_sides(),
                fam == Seq::new(16, |k: int| threshold_2d(threshold_2d_cos()[k / 8], threshold_2d_sides()[k % 8])),
                case_views(cases@) == fam.take(i as int * 8 + j as int),
        {
            let co = cos[i];
            let side = sides[j];
            let mut name = label("threshold_2d_co", co);
            extend_label(&mut name, "_side", side);
            let c = kernel4_2d_case(name, 32, co, side);
            proof {
                let k = i as int * 8 + j as int;
                assert(k / 8 == i && k % 8 == j) by (nonlinear_arith)
                    requires
                        k == i * 8 + j,
                        0 <= j < 8,
                        0 <= i,
                ;
                lemma_views_push(cases@, c);
                lemma_take_push(fam, k);
            }
            cases.push(c);
        }
    }
    assert(fam.take(16) =~= fam);
    cases
}

fn threshold_2d_co64_cases() -> (cases: Vec<SweepCase>)
    ensures
        case_views(cases@) == sweep_table().subrange(44, 46),
{
    let mut cases: Vec<SweepCase> = Vec::new();
    cases.push(kernel4_2d_case(label("threshold_2d_co64_side", 7), 64, 64, 7));
    cases.push(kernel4_2d_case(label("threshold_2d_co64_side", 14), 128, 64, 14));
    assert(case_views(cases@) =~= sweep_table().subrange(44, 46));
    cases
}

fn threshold_3d_cases() -> (cases: Vec<SweepCase>)
    ensures
        case_views(cases@) == sweep_table().subrange(46, 51),
{
    let ghost fam = Seq::new(5, |k: int| threshold_3d(threshold_3d_sides()[k]));
    assert(fam =~= sweep_table().subrange(46, 51));
    let sides: [usize; 5] = [3, 4, 6, 8, 12];
    assert(sides@ =~= threshold_3d_sides());
    let mut cases: Vec<SweepCase> = Vec::new();
    assert(case_views(cases@) =~= fam.take(0));
    for i in 0..5
        invariant
            sides@ == threshold_3d_sides(),
            fam == Seq::new(5, |k: int| threshold_3d(threshold_3d_sides()[k])),
            case_views(cases@) == fam.take(i as int),
    {
        let side = sides[i];
        let c = SweepCase {
            name: label("threshold_3d_side", side),
            x: [1, 8, side, side, side],
            co: 8,
            kernel: [3, 3, 3],
            stride: [2, 2, 2],
            pad: [1, 1, 1],
            groups: 1,
        };
        proof {
            assert(c@ =~= threshold_3d(side));
            lemma_views_push(cases@, c);
            lemma_take_push(fam, i as int);
        }
        cases.push(c);
    }
    assert(fam.take(5) =~= fam);
    cases
}

fn gemm_1d_cases() -> (cases: Vec<SweepCase>)
    ensures
        case_views(cases@) == sweep_table().subrange(51, 111),
{
    let ghost fam = Seq::new(60, |k: int| gemm_1d(threshold_1d_cos()[k / 15], gemm_1d_cis()[(k / 5) % 3], gemm_1d_works()[k % 5]));
    assert(fam =~= sweep_table().subrange(51, 111));
    let cos: [usize; 4] = [2, 8, 32, 64];
    let cis: [usize; 3] = [64, 128, 512];
    let works: [usize; 5] = [32768, 65536, 131072, 196608, 245760];
    assert(cos@ =~= threshold_1d_cos());
    assert(cis@ =~= gemm_1d_cis());
    assert(works@ =~= gemm_1d_works());
    let mut cases: Vec<SweepCase> = Vec::new();
    assert(case_views(cases@) =~= fam.take(0));
    for i in 0..4
        invariant
            cos@ == threshold_1d_cos(),
            cis@ == gemm_1d_cis(),
            works@ == gemm_1d_works(),
            fam == Seq::new(60, |k: int| gemm_1d(threshold_1d_cos()[k / 15], gemm_1d_cis()[(k / 5) % 3], gemm_1d_works()[k % 5])),
            case_views(cases@) == fam.take(i as int * 15),
    {
        for m in 0..3
            invariant
                0 <= i < 4,
                cos@ == threshold_1d_cos(),
                cis@ == gemm_1d_cis(),
                works@ == gemm_1d_works(),
                fam == Seq::new(60, |k: int| gemm_1d(threshold_1d_cos()[k / 15], gemm_1d_cis()[(k / 5) % 3], gemm_1d_works()[k % 5])),
                case_views(cases@) == fam.take(i as int * 15 + m as int * 5),
        {
            for j in 0..5
                invariant
                    0 <= i < 4,
                    0 <= m < 3,
                    cos@ == threshold_1d_cos(),
                    cis@ == gemm_1d_cis(),
                    works@ == gemm_1d_works(),
                    fam == Seq::new(60, |k: int| gemm_1d(threshold_1d_cos()[k / 15], gemm_1d_cis()[(k / 5) % 3], gemm_1d_works()[k % 5])),
                    case_views(cases@) == fam.take(i as int * 15 + m as int * 5 + j as int),
            {
                let co = cos[i];
                let ci = cis[m];
                let work = works[j];
                let mut name = label("gemm_1d_co", co);
                extend_label(&mut name, "_ci", ci);
                extend_label(&mut name, "_work", work);
                let c = kernel8_1d_case(name, ci, co, work);
                proof {
                    let k = i as int * 15 + m as int * 5 + j as int;
                    assert(k / 15 == i && (k / 5) % 3 == m && k % 5 == j) by (nonlinear_arith)
                        requires
                            k == i * 15 + m * 5 + j,
                            0 <= j < 5,
                            0 <= m < 3,
                            0 <= i,
                    ;
                    lemma_views_push(cases@, c);
                    lemma_take_push(fam, k);
                }
                cases.push(c);
            }
        }
    }
    assert(fam.take(60) =~= fam);
    cases
}

fn gemm_2d_cases() -> (cases: Vec<SweepCase>)
    ensures
        case_views(cases@) == sweep_table().subrange(111, 135),
{
    let ghost fam = Seq::new(24, |k: int| gemm_2d(gemm_2d_cos()[k / 8], gemm_2d_cis()[(k / 4) % 2], gemm_2d_sides()[k % 4]));
    assert(fam =~= sweep_table().subrange(111, 135));
    let cos: [usize; 3] = [8, 32, 64];
    let cis: [usize; 2] = [128, 512];
    let sides: [usize; 4] = [7, 8, 11, 14];
    assert(cos@ =~= gemm_2d_cos());
    assert(cis@ =~= gemm_2d_cis());
    assert(sides@ =~= gemm_2d_sides());
    let mut cases: Vec<SweepCase> = Vec::new();
    assert(case_views(cases@) =~= fam.take(0));
    for i in 0..3
        invariant
            cos@ == gemm_2d_cos(),
            cis@ == gemm_2d_cis(),
            sides@ == gemm_2d_sides(),
            fam == Seq::new(24, |k: int| gemm_2d(gemm_2d_cos()[k / 8], gemm_2d_cis()[(k / 4) % 2], gemm_2d_sides()[k % 4])),
            case_views(cases@) == fam.take(i as int * 8),
    {
        for m in 0..2
            invariant
                0 <= i < 3,
                cos@ == gemm_2d_cos(),
                cis@ == gemm_2d_cis(),
                sides@ == gemm_2d_sides(),
                fam == Seq::new(24, |k: int| gemm_2d(gemm_2d_cos()[k / 8], gemm_2d_cis()[(k / 4) % 2], gemm_2d_sides()[k % 4])),
                case_views(cases@) == fam.take(i as int * 8 + m as int * 4),
        {
            for j in 0..4
                invariant
                    0 <= i < 3,
                    0 <= m < 2,
                    cos@ == gemm_2d_cos(),
                    cis@ == gemm_2d_cis(),
                    sides@ == gemm_2d_sides(),
                    fam == Seq::new(24, |k: int| gemm_2d(gemm_2d_cos()[k / 8], gemm_2d_cis()[(k / 4) % 2], gemm_2d_sides()[k % 4])),
                    case_views(cases@) == fam.take(i as int * 8 + m as int * 4 + j as int),
            {
                let co = cos[i];
                let ci = cis[m];
                let side = sides[j];
                let mut name = label("gemm_2d_co", co);
                extend_label(&mut name, "_ci", ci);
                extend_label(&mut name, "_side", side);
                let c = kernel4_2d_case(name, ci, co, side);
                proof {
                    let k = i as int * 8 + m as int * 4 + j as int;
                    assert(k / 8 == i && (k / 4) % 2 == m && k % 4 == j) by (nonlinear_arith)
                        requires
                            k == i * 8 + m * 4 + j,
                            0 <= j < 4,
                            0 <= m < 2,
                            0 <= i,
                    ;
                    lemma_views_push(cases@, c);
                    lemma_take_push(fam, k);
                }
                cases.push(c);
            }
        }
    }
    assert(fam.take(24) =~= fam);
    cases
}

fn grouped_cases() -> (cases: Vec<SweepCase>)
    ensures
        case_views(cases@) == sweep_table().subrange(135, 159),
{
    let ghost fam = Seq::new(24, |k: int| grouped(group_counts()[k / 3], group_lengths()[k % 3]));
    assert(fam =~= sweep_table().subrange(135, 159));
    let counts: [usize; 8] = [2, 3, 4, 5, 7, 8, 9, 16];
    let lengths: [usize; 3] = [512, 2048, 8192];
    assert(counts@ =~= group_counts());
    assert(lengths@ =~= group_lengths());
    let mut cases: Vec<SweepCase> = Vec::new();
    assert(case_views(cases@) =~= fam.take(0));
    for i in 0..8
        invariant
            counts@ == group_counts(),
            lengths@ == group_lengths(),
            fam == Seq::new(24, |k: int| grouped(group_counts()[k / 3], group_lengths()[k % 3])),
            case_views(cases@) == fam.take(i as int * 3),
    {
        for j in 0..3
            invariant
                0 <= i < 8,
                counts@ == group_counts(),
                lengths@ == group_lengths(),
                fam == Seq::new(24, |k: int| grouped(group_counts()[k / 3], group_lengths()[k % 3])),
                case_views(cases@) == fam.take(i as int * 3 + j as int),
        {
            let groups = counts[i];
            let length = lengths[j];
            let mut name = label("groups_g", groups);
            extend_label(&mut name, "_l", length);
            let c = kernel16_1d_case(name, 1, 4 * groups, length, groups);
            proof {
                let k = i as int * 3 + j as int;
                assert(k / 3 == i && k % 3 == j) by (nonlinear_arith)
                    requires
                        k == i * 3 + j,
                        0 <= j < 3,
                        0 <= i,
                ;
                lemma_views_push(cases@, c);
                lemma_take_push(fam, k);
            }
            cases.push(c);
        }
    }
    assert(fam.take(24) =~= fam);
    cases
}

fn batched_cases() -> (cases: Vec<SweepCase>)
    ensures
        case_views(cases@) == sweep_table().subrange(159, 162),
{
    let ghost fam = Seq::new(3, |k: int| batched(batch_sizes()[k]));
    assert(fam =~= sweep_table().subrange(159, 162));
    let batches: [usize; 3] = [4, 5, 8];
    assert(batches@ =~= batch_sizes());
    let mut cases: Vec<SweepCase> = Vec::new();
    assert(case_views(cases@) =~= fam.take(0));
    for i in 0..3
        invariant
            batches@ == batch_sizes(),
            fam == Seq::new(3, |k: int| batched(batch_sizes()[k])),
            case_views(cases@) == fam.take(i as int),
    {
        let batch = batches[i];
        let mut name = label("groups_batch", batch);
        name.append("_l2048");
        let c = kernel16_1d_case(name, batch, 4, 2048, 1);
        proof {
            lemma_views_push(cases@, c);
            lemma_take_push(fam, i as int);
        }
        cases.push(c);
    }
    assert(fam.take(3) =~= fam);
    cases
}

/// A sweep case describes a transposed convolution whose tensors can be
/// generated: its options are valid, the group count divides the input
/// channels, and the element counts of input and weights fit in `usize`.
pub open spec fn sweep_case_well_formed(c: CaseSpec) -> bool {
    &&& options_valid(c)
    &&& c.x.len() == 5
    &&& c.x[1] % c.groups == 0
    &&& product_fits(c.x)
    &&& product_fits(sweep_weight_shape(c))
}

proof fn lemma_kernel8_1d_well_formed(name: Seq<char>, ci: usize, co: usize, work: usize)
    requires
        64 <= ci <= 512 || ci == 16,
        2 <= co <= 64,
        8192 <= work <= 524288,
        ci == 16 || 32768 <= work <= 245760,
    ensures
        sweep_case_well_formed(kernel8_1d(name, ci, co, work)),
{
    let c = kernel8_1d(name, ci, co, work);
    let w = (work as int / (co * 8)) as usize;
    assert(16 <= w <= 32768) by (nonlinear_arith)
        requires
            w == work as int / (co * 8),
            2 <= co <= 64,
            8192 <= work <= 524288,
    ;
    if ci != 16 {
        assert(64 <= w <= 15360) by (nonlinear_arith)
            requires
                w == work as int / (co * 8),
                2 <= co <= 64,
                32768 <= work <= 245760,
        ;
        lemma_bounded_product_fits(c.x, seq![1usize, 512, 1, 1, 15360]);
    } else {
        lemma_bounded_product_fits(c.x, seq![1usize, 16, 1, 1, 32768]);
    }
    lemma_bounded_product_fits(sweep_weight_shape(c), seq![512usize, 64, 1, 1, 8]);
}

proof fn lemma_kernel4_2d_well_formed(name: Seq<char>, ci: usize, co: usize, side: usize)
    requires
        32 <= ci <= 512,
        8 <= co <= 64,
        4 <= side <= 32,
    ensures
        sweep_case_well_formed(kernel4_2d(name, ci, co, side)),
{
    let c = kernel4_2d(name, ci, co, side);
    lemma_bounded_product_fits(c.x, seq![1usize, 512, 1, 32, 32]);
    lemma_bounded_product_fits(sweep_weight_shape(c), seq![512usize, 64, 1, 4, 4]);
}

proof fn lemma_kernel16_1d_well_formed(name: Seq<char>, batch: usize, ci: usize, length: usize, groups: usize)
    requires
        1 <= batch <= 8,
        4 <= ci <= 64,
        512 <= length <= 8192,
        1 <= groups <= 16,
        ci % groups == 0,
    ensures
        sweep_case_well_formed(kernel16_1d(name, batch, ci, length, groups)),
{
    let c = kernel16_1d(name, batch, ci, length, groups);
    lemma_bounded_product_fits(c.x, seq![8usize, 64, 1, 1, 8192]);
    lemma_bounded_product_fits(sweep_weight_shape(c), seq![64usize, 8, 1, 1, 16]);
}

/// Every case of the sweep is well formed: the benchmark never builds invalid
/// options or a tensor whose element count overflows.
pub proof fn lemma_sweep_table_well_formed()
    ensures
        forall|i: int| 0 <= i < sweep_table().len() ==> #[trigger] sweep_case_well_formed(sweep_table()[i]),
{
    let t = sweep_table();
    assert forall|i: int| 0 <= i < t.len() implies #[trigger] sweep_case_well_formed(t[i]) by {
        if i < 28 {
            let k = i;
            assert(0 <= k / 7 < 4 && 0 <= k % 7 < 7);
            let co = threshold_1d_cos()[k / 7];
            let work = threshold_1d_works()[k % 7];
            assert(2 <= co <= 64 && 8192 <= work <= 524288);
            assert(t[i] == threshold_1d(co, work));
            lemma_kernel8_1d_well_formed(t[i].name, 16, co, work);
        } else if i < 44 {
            let k = i - 28;
            assert(0 <= k / 8 < 2 && 0 <= k % 8 < 8);
            let co = threshold_2d_cos()[k / 8];
            let side = threshold_2d_sides()[k % 8];
            assert(8 <= co <= 32 && 4 <= side <= 32);
            assert(t[i] == threshold_2d(co, side));
            lemma_kernel4_2d_well_formed(t[i].name, 32, co, side);
        } else if i < 46 {
            if i == 44 {
                assert(t[i] == threshold_2d_co64(7, 64));
                lemma_kernel4_2d_well_formed(t[i].name, 64, 64, 7);
            } else {
                assert(t[i] == threshold_2d_co64(14, 128));
                lemma_kernel4_2d_well_formed(t[i].name, 128, 64, 14);
            }
        } else if i < 51 {
            let side = threshold_3d_sides()[i - 46];
            assert(3 <= side <= 12);
            assert(t[i] == threshold_3d(side));
            lemma_bounded_product_fits(t[i].x, seq![1usize, 8, 12, 12, 12]);
            lemma_bounded_product_fits(sweep_weight_shape(t[i]), seq![8usize, 8, 3, 3, 3]);
        } else if i < 111 {
            let k = i - 51;
            assert(0 <= k / 15 < 4 && 0 <= (k / 5) % 3 < 3 && 0 <= k % 5 < 5);
            let co = threshold_1d_cos()[k / 15];
            let ci = gemm_1d_cis()[(k / 5) % 3];
            let work = gemm_1d_works()[k % 5];
            assert(2 <= co <= 64 && 64 <= ci <= 512 && 32768 <= work <= 245760);
            assert(t[i] == gemm_1d(co, ci, work));
            lemma_kernel8_1d_well_formed(t[i].name, ci, co, work);
        } else if i < 135 {
            let k = i - 111;
            assert(0 <= k / 8 < 3 && 0 <= (k / 4) % 2 < 2 && 0 <= k % 4 < 4);
            let co = gemm_2d_cos()[k / 8];
            let ci = gemm_2d_cis()[(k / 4) % 2];
            let side = gemm_2d_sides()[k % 4];
            assert(8 <= co <= 64 && 128 <= ci <= 512 && 7 <= side <= 14);
            assert(t[i] == gemm_2d(co, ci, side));
            lemma_kernel4_2d_well_formed(t[i].name, ci, co, side);
        } else if i < 159 {
            let k = i - 135;
            assert(0 <= k / 3 < 8 && 0 <= k % 3 < 3);
            let groups = group_counts()[k / 3];
            let length = group_lengths()[k % 3];
            assert(2 <= groups <= 16 && 512 <= length <= 8192);
            let g = groups as int;
            assert((4 * g) % g == 0) by (nonlinear_arith)
                requires
                    g >= 1,
            ;
            assert(((4 * groups) as usize) % groups == 0);
            assert(t[i] == grouped(groups, length));
            lemma_kernel16_1d_well_formed(t[i].name, 1, (4 * groups) as usize, length, groups);
        } else {
            let batch = batch_sizes()[i - 159];
            assert(4 <= batch <= 8);
            assert(t[i] == batched(batch));
            lemma_kernel16_1d_well_formed(t[i].name, batch, 4, 2048, 1);
        }
    }
}

/// `s` begins with the characters of `p`.
pub open spec fn starts_with(s: Seq<char>, p: Seq<char>) -> bool {
    p.len() <= s.len() && s.subrange(0, p.len() as int) == p
}

/// The settings that the family prefix of a case name fixes: 1D cases with
/// kernel 8 (`threshold_1d_`, `gemm_1d_`), square 2D cases with kernel 4,
/// stride 2 and padding 1 (`threshold_2d_`, `gemm_2d_`), cubic 3D cases
/// (`threshold_3d_`), and the 1D grouped and batched cases with kernel 16
/// (`groups_`).
pub open spec fn family_settings_hold(c: CaseSpec) -> bool {
    &&& c.x.len() == 5
    &&& (starts_with(c.name, "threshold_1d_"@) || starts_with(c.name, "gemm_1d_"@)) ==> {
        &&& c.kernel == seq![1usize, 1, 8]
        &&& c.stride == seq![1usize, 1, 2]
        &&& c.pad == seq![0usize, 0, 3]
        &&& c.x[2] == 1 && c.x[3] == 1
        &&& c.groups == 1
    }
    &&& (starts_with(c.name, "threshold_2d_"@) || starts_with(c.name, "gemm_2d_"@)) ==> {
        &&& c.kernel == seq![1usize, 4, 4]
        &&& c.stride == seq![1usize, 2, 2]
        &&& c.pad == seq![0usize, 1, 1]
        &&& c.x[2] == 1 && c.x[3] == c.x[4]
        &&& c.groups == 1
    }
    &&& starts_with(c.name, "threshold_3d_"@) ==> {
        &&& c.kernel == seq![3usize, 3, 3]
        &&& c.stride == seq![2usize, 2, 2]
        &&& c.pad == seq![1usize, 1, 1]
        &&& c.x[2] == c.x[3] && c.x[3] == c.x[4]
        &&& c.groups == 1
    }
    &&& starts_with(c.name, "groups_"@) ==> {
        &&& c.kernel == seq![1usize, 1, 16]
        &&& c.stride == seq![1usize, 1, 2]
        &&& c.pad == seq![0usize, 0, 7]
        &&& c.x[2] == 1 && c.x[3] == 1
        &&& c.co == 8
        &&& c.x[1] == 4 * c.groups
    }
}

/// The name starts with exactly one of the sweep's family prefixes.
pub open spec fn has_one_family(name: Seq<char>) -> bool {
    let hits = seq![
        starts_with(name, "threshold_1d_"@),
        starts_with(name, "threshold_2d_"@),
        starts_with(name, "threshold_3d_"@),
        starts_with(name, "gemm_1d_"@),
        starts_with(name, "gemm_2d_"@),
        starts_with(name, "groups_"@),
    ];
    exists|k: int| 0 <= k < 6 && #[trigger] hits[k] && forall|m: int| 0 <= m < 6 && m != k ==> !#[trigger] hits[m]
}

proof fn lemma_prefix_extends(l: Seq<char>, rest: Seq<char>, p: Seq<char>)
    requires
        p.len() <= l.len(),
        l.subrange(0, p.len() as int) == p,
    ensures
        starts_with(l + rest, p),
{
    assert((l + rest).subrange(0, p.len() as int) =~= p) by {
        assert forall|k: int| 0 <= k < p.len() implies #[trigger] (l + rest).subrange(0, p.len() as int)[k] == p[k] by {
            assert(l.subrange(0, p.len() as int)[k] == l[k]);
        }
    }
}

proof fn lemma_prefix_mismatch(l: Seq<char>, rest: Seq<char>, p: Seq<char>, k: int)
    requires
        0 <= k < p.len(),
        k < l.len(),
        l[k] != p[k],
    ensures
        !starts_with(l + rest, p),
{
    if starts_with(l + rest, p) {
        assert((l + rest).subrange(0, p.len() as int)[k] == (l + rest)[k]);
    }
}

/// Every sweep case belongs to exactly one family by its name, and each family
/// prefix fixes the case's kernel, stride, padding and shape pattern: every
/// `threshold_2d_` or `gemm_2d_` case uses kernel `[1, 4, 4]`, stride
/// `[1, 2, 2]` and padding `[0, 1, 1]` on a square input, and likewise for
/// the other families.
pub proof fn lemma_sweep_family_settings()
    ensures
        forall|i: int| 0 <= i < sweep_table().len() ==> #[trigger] family_settings_hold(sweep_table()[i]),
        forall|i: int| 0 <= i < sweep_table().len() ==> #[trigger] has_one_family(sweep_table()[i].name),
{
    assert forall|i: int| 0 <= i < sweep_table().len() implies #[trigger] family_settings_hold(sweep_table()[i]) by {
        lemma_sweep_case_family(i);
    }
    assert forall|i: int| 0 <= i < sweep_table().len() implies #[trigger] has_one_family(sweep_table()[i].name) by {
        lemma_sweep_case_family(i);
    }
}

proof fn lemma_sweep_case_family(i: int)
    requires
        0 <= i < sweep_table().len(),
    ensures
        family_settings_hold(sweep_table()[i]),
        has_one_family(sweep_table()[i].name),
{
    reveal_strlit("threshold_1d_");
    reveal_strlit("threshold_2d_");
    reveal_strlit("threshold_3d_");
    reveal_strlit("gemm_1d_");
    reveal_strlit("gemm_2d_");
    reveal_strlit("groups_");
    reveal_strlit("threshold_1d_co");
    reveal_strlit("threshold_2d_co");
    reveal_strlit("threshold_2d_co64_side");
    reveal_strlit("threshold_3d_side");
    reveal_strlit("gemm_1d_co");
    reveal_strlit("gemm_2d_co");
    reveal_strlit("groups_g");
    reveal_strlit("groups_batch");
    let t = sweep_table();
    if i < 28 {
        let k = i;
        assert(0 <= k / 7 < 4 && 0 <= k % 7 < 7);
        let co = threshold_1d_cos()[k / 7];
        let work = threshold_1d_works()[k % 7];
        assert(t[i] == threshold_1d(co, work));
        let rest = decimal(co as nat) + "_work"@ + decimal(work as nat);
        assert(t[i].name =~= "threshold_1d_co"@ + rest);
        assert("threshold_1d_co"@.subrange(0, "threshold_1d_"@.len() as int) =~= "threshold_1d_"@);
        lemma_prefix_extends("threshold_1d_co"@, rest, "threshold_1d_"@);
        lemma_prefix_mismatch("threshold_1d_co"@, rest, "threshold_2d_"@, 10);
        lemma_prefix_mismatch("threshold_1d_co"@, rest, "threshold_3d_"@, 10);
        lemma_prefix_mismatch("threshold_1d_co"@, rest, "gemm_1d_"@, 0);
        lemma_prefix_mismatch("threshold_1d_co"@, rest, "gemm_2d_"@, 0);
        lemma_prefix_mismatch("threshold_1d_co"@, rest, "groups_"@, 0);
        assert(has_one_family(t[i].name)) by {
            let name = t[i].name;
            let hits = seq![
                starts_with(name, "threshold_1d_"@),
                starts_with(name, "threshold_2d_"@),
                starts_with(name, "threshold_3d_"@),
                starts_with(name, "gemm_1d_"@),
                starts_with(name, "gemm_2d_"@),
                starts_with(name, "groups_"@),
            ];
            assert(hits[0]);
            assert(forall|m: int| 0 <= m < 6 && m != 0 ==> !#[trigger] hits[m]);
        }
        assert(family_settings_hold(t[i]));
    } else if i < 44 {
        let k = i - 28;
        assert(0 <= k / 8 < 2 && 0 <= k % 8 < 8);
        let co = threshold_2d_cos()[k / 8];
        let side = threshold_2d_sides()[k % 8];
        assert(t[i] == threshold_2d(co, side));
        let rest = decimal(co as nat) + "_side"@ + decimal(side as nat);
        assert(t[i].name =~= "threshold_2d_co"@ + rest);
        lemma_prefix_mismatch("threshold_2d_co"@, rest, "threshold_1d_"@, 10);
        assert("threshold_2d_co"@.subrange(0, "threshold_2d_"@.len() as int) =~= "threshold_2d_"@);
        lemma_prefix_extends("threshold_2d_co"@, rest, "threshold_2d_"@);
        lemma_prefix_mismatch("threshold_2d_co"@, rest, "threshold_3d_"@, 10);
        lemma_prefix_mismatch("threshold_2d_co"@, rest, "gemm_1d_"@, 0);
        lemma_prefix_mismatch("threshold_2d_co"@, rest, "gemm_2d_"@, 0);
        lemma_prefix_mismatch("threshold_2d_co"@, rest, "groups_"@, 0);
        assert(has_one_family(t[i].name)) by {
            let name = t[i].name;
            let hits = seq![
                starts_with(name, "threshold_1d_"@),
                starts_with(name, "threshold_2d_"@),
                starts_with(name, "threshold_3d_"@),
                starts_with(name, "gemm_1d_"@),
                starts_with(name, "gemm_2d_"@),
                starts_with(name, "groups_"@),
            ];
            assert(hits[1]);
            assert(forall|m: int| 0 <= m < 6 && m != 1 ==> !#[trigger] hits[m]);
        }
        assert(family_settings_hold(t[i]));
    } else if i < 46 {
        let side: usize = if i == 44 { 7 } else { 14 };
        let ci: usize = if i == 44 { 64 } else { 128 };
        assert(t[i] == threshold_2d_co64(side, ci));
        let rest = decimal(side as nat);
        lemma_prefix_mismatch("threshold_2d_co64_side"@, rest, "threshold_1d_"@, 10);
        assert("threshold_2d_co64_side"@.subrange(0, "threshold_2d_"@.len() as int) =~= "threshold_2d_"@);
        lemma_prefix_extends("threshold_2d_co64_side"@, rest, "threshold_2d_"@);
        lemma_prefix_mismatch("threshold_2d_co64_side"@, rest, "threshold_3d_"@, 10);
        lemma_prefix_mismatch("threshold_2d_co64_side"@, rest, "gemm_1d_"@, 0);
        lemma_prefix_mismatch("threshold_2d_co64_side"@, rest, "gemm_2d_"@, 0);
        lemma_prefix_mismatch("threshold_2d_co64_side"@, rest, "groups_"@, 0);
        assert(has_one_family(t[i].name)) by {
            let name = t[i].name;
            let hits = seq![
                starts_with(name, "threshold_1d_"@),
                starts_with(name, "threshold_2d_"@),
                starts_with(name, "threshold_3d_"@),
                starts_with(name, "gemm_1d_"@),
                starts_with(name, "gemm_2d_"@),
                starts_with(name, "groups_"@),
            ];
            assert(hits[1]);
            assert(forall|m: int| 0 <= m < 6 && m != 1 ==> !#[trigger] hits[m]);
        }
        assert(family_settings_hold(t[i]));
    } else if i < 51 {
        let side = threshold_3d_sides()[i - 46];
        assert(t[i] == threshold_3d(side));
        let rest = decimal(side as nat);
        lemma_prefix_mismatch("threshold_3d_side"@, rest, "threshold_1d_"@, 10);
        lemma_prefix_mismatch("threshold_3d_side"@, rest, "threshold_2d_"@, 10);
        assert("threshold_3d_side"@.subrange(0, "threshold_3d_"@.len() as int) =~= "threshold_3d_"@);
        lemma_prefix_extends("threshold_3d_side"@, rest, "threshold_3d_"@);
        lemma_prefix_mismatch("threshold_3d_side"@, rest, "gemm_1d_"@, 0);
        lemma_prefix_mismatch("threshold_3d_side"@, rest, "gemm_2d_"@, 0);
        lemma_prefix_mismatch("threshold_3d_side"@, rest, "groups_"@, 0);
        assert(has_one_family(t[i].name)) by {
            let name = t[i].name;
            let hits = seq![
                starts_with(name, "threshold_1d_"@),
                starts_with(name, "threshold_2d_"@),
                starts_with(name, "threshold_3d_"@),
                starts_with(name, "gemm_1d_"@),
                starts_with(name, "gemm_2d_"@),
                starts_with(name, "groups_"@),
            ];
            assert(hits[2]);
            assert(forall|m: int| 0 <= m < 6 && m != 2 ==> !#[trigger] hits[m]);
        }
        assert(family_settings_hold(t[i]));
    } else if i < 111 {
        let k = i - 51;
        assert(0 <= k / 15 < 4 && 0 <= (k / 5) % 3 < 3 && 0 <= k % 5 < 5);
        let co = threshold_1d_cos()[k / 15];
        let ci = gemm_1d_cis()[(k / 5) % 3];
        let work = gemm_1d_works()[k % 5];
        assert(t[i] == gemm_1d(co, ci, work));
        let rest = decimal(co as nat) + "_ci"@ + decimal(ci as nat) + "_work"@ + decimal(work as nat);
        assert(t[i].name =~= "gemm_1d_co"@ + rest);
        lemma_prefix_mismatch("gemm_1d_co"@, rest, "threshold_1d_"@, 0);
        lemma_prefix_mismatch("gemm_1d_co"@, rest, "threshold_2d_"@, 0);
        lemma_prefix_mismatch("gemm_1d_co"@, rest, "threshold_3d_"@, 0);
        assert("gemm_1d_co"@.subrange(0, "gemm_1d_"@.len() as int) =~= "gemm_1d_"@);
        lemma_prefix_extends("gemm_1d_co"@, rest, "gemm_1d_"@);
        lemma_prefix_mismatch("gemm_1d_co"@, rest, "gemm_2d_"@, 5);
        lemma_prefix_mismatch("gemm_1d_co"@, rest, "groups_"@, 1);
        assert(has_one_family(t[i].name)) by {
            let name = t[i].name;
            let hits = seq![
                starts_with(name, "threshold_1d_"@),
                starts_with(name, "threshold_2d_"@),
                starts_with(name, "threshold_3d_"@),
                starts_with(name, "gemm_1d_"@),
                starts_with(name, "gemm_2d_"@),
                starts_with(name, "groups_"@),
            ];
            assert(hits[3]);
            assert(forall|m: int| 0 <= m < 6 && m != 3 ==> !#[trigger] hits[m]);
        }
        assert(family_settings_hold(t[i]));
    } else if i < 135 {
        let k = i - 111;
        assert(0 <= k / 8 < 3 && 0 <= (k / 4) % 2 < 2 && 0 <= k % 4 < 4);
        let co = gemm_2d_cos()[k / 8];
        let ci = gemm_2d_cis()[(k / 4) % 2];
        let side = gemm_2d_sides()[k % 4];
        assert(t[i] == gemm_2d(co, ci, side));
        let rest = decimal(co as nat) + "_ci"@ + decimal(ci as nat) + "_side"@ + decimal(side as nat);
        assert(t[i].name =~= "gemm_2d_co"@ + rest);
        lemma_prefix_mismatch("gemm_2d_co"@, rest, "threshold_1d_"@, 0);
        lemma_prefix_mismatch("gemm_2d_co"@, rest, "threshold_2d_"@, 0);
        lemma_prefix_mismatch("gemm_2d_co"@, rest, "threshold_3d_"@, 0);
        lemma_prefix_mismatch("gemm_2d_co"@, rest, "gemm_1d_"@, 5);
        assert("gemm_2d_co"@.subrange(0, "gemm_2d_"@.len() as int) =~= "gemm_2d_"@);
        lemma_prefix_extends("gemm_2d_co"@, rest, "gemm_2d_"@);
        lemma_prefix_mismatch("gemm_2d_co"@, rest, "groups_"@, 1);
        assert(has_one_family(t[i].name)) by {
            let name = t[i].name;
            let hits = seq![
                starts_with(name, "threshold_1d_"@),
                starts_with(name, "threshold_2d_"@),
                starts_with(name, "threshold_3d_"@),
                starts_with(name, "gemm_1d_"@),
                starts_with(name, "gemm_2d_"@),
                starts_with(name, "groups_"@),
            ];
            assert(hits[4]);
            assert(forall|m: int| 0 <= m < 6 && m != 4 ==> !#[trigger] hits[m]);
        }
        assert(family_settings_hold(t[i]));
    } else if i < 159 {
        let k = i - 135;
        assert(0 <= k / 3 < 8 && 0 <= k % 3 < 3);
        let groups = group_counts()[k / 3];
        let length = group_lengths()[k % 3];
        assert(t[i] == grouped(groups, length));
        let rest = decimal(groups as nat) + "_l"@ + decimal(length as nat);
        assert(t[i].name =~= "groups_g"@ + rest);
        lemma_prefix_mismatch("groups_g"@, rest, "threshold_1d_"@, 0);
        lemma_prefix_mismatch("groups_g"@, rest, "threshold_2d_"@, 0);
        lemma_prefix_mismatch("groups_g"@, rest, "threshold_3d_"@, 0);
        lemma_prefix_mismatch("groups_g"@, rest, "gemm_1d_"@, 1);
        lemma_prefix_mismatch("groups_g"@, rest, "gemm_2d_"@, 1);
        assert("groups_g"@.subrange(0, "groups_"@.len() as int) =~= "groups_"@);
        lemma_prefix_extends("groups_g"@, rest, "groups_"@);
        assert(has_one_family(t[i].name)) by {
            let name = t[i].name;
            let hits = seq![
                starts_with(name, "threshold_1d_"@),
                starts_with(name, "threshold_2d_"@),
                starts_with(name, "threshold_3d_"@),
                starts_with(name, "gemm_1d_"@),
                starts_with(name, "gemm_2d_"@),
                starts_with(name, "groups_"@),
            ];
            assert(hits[5]);
            assert(forall|m: int| 0 <= m < 6 && m != 5 ==> !#[trigger] hits[m]);
        }
        assert(family_settings_hold(t[i]));
    } else {
        let batch = batch_sizes()[i - 159];
        assert(t[i] == batched(batch));
        let rest = decimal(batch as nat) + "_l2048"@;
        assert(t[i].name =~= "groups_batch"@ + rest);
        lemma_prefix_mismatch("groups_batch"@, rest, "threshold_1d_"@, 0);
        lemma_prefix_mismatch("groups_batch"@, rest, "threshold_2d_"@, 0);
        lemma_prefix_mismatch("groups_batch"@, rest, "threshold_3d_"@, 0);
        lemma_prefix_mismatch("groups_batch"@, rest, "gemm_1d_"@, 1);
        lemma_prefix_mismatch("groups_batch"@, rest, "gemm_2d_"@, 1);
        assert("groups_batch"@.subrange(0, "groups_"@.len() as int) =~= "groups_"@);
        lemma_prefix_extends("groups_batch"@, rest, "groups_"@);
        assert(has_one_family(t[i].name)) by {
            let name = t[i].name;
            let hits = seq![
                starts_with(name, "threshold_1d_"@),
                starts_with(name, "threshold_2d_"@),
                starts_with(name, "threshold_3d_"@),
                starts_with(name, "gemm_1d_"@),
                starts_with(name, "gemm_2d_"@),
                starts_with(name, "groups_"@),
            ];
            assert(hits[5]);
            assert(forall|m: int| 0 <= m < 6 && m != 5 ==> !#[trigger] hits[m]);
        }
        assert(family_settings_hold(t[i]));
    }
}

/// The name of a sweep case spells the parameters it was built from, and the
/// case's channels and shape follow them: output channels `co`, input
/// channels `ci`, work `w` (the 1D extent is `w / (co * 8)`), square side,
/// group count and batch.
pub open spec fn sweep_name_spells(c: CaseSpec) -> bool {
    ||| exists|co: usize, w: usize|
        c.name == #[trigger] ("threshold_1d_co"@ + decimal(co as nat) + "_work"@ + decimal(w as nat))
            && c.co == co && c.x == seq![1usize, 16, 1, 1, (w as int / (co * 8)) as usize]
    ||| exists|co: usize, side: usize|
        c.name == #[trigger] ("threshold_2d_co"@ + decimal(co as nat) + "_side"@ + decimal(side as nat))
            && c.co == co && c.x[2] == 1 && c.x[3] == side && c.x[4] == side
    ||| exists|side: usize|
        c.name == #[trigger] ("threshold_3d_side"@ + decimal(side as nat))
            && c.co == 8 && c.x == seq![1usize, 8, side, side, side]
    ||| exists|co: usize, ci: usize, w: usize|
        c.name == #[trigger] ("gemm_1d_co"@ + decimal(co as nat) + "_ci"@ + decimal(ci as nat) + "_work"@ + decimal(w as nat))
            && c.co == co && c.x == seq![1usize, ci, 1, 1, (w as int / (co * 8)) as usize]
    ||| exists|co: usize, ci: usize, side: usize|
        c.name == #[trigger] ("gemm_2d_co"@ + decimal(co as nat) + "_ci"@ + decimal(ci as nat) + "_side"@ + decimal(side as nat))
            && c.co == co && c.x == seq![1usize, ci, 1, side, side]
    ||| exists|g: usize, length: usize|
        c.name == #[trigger] ("groups_g"@ + decimal(g as nat) + "_l"@ + decimal(length as nat))
            && c.groups == g && c.x == seq![1usize, (4 * g) as usize, 1, 1, length]
    ||| exists|batch: usize|
        c.name == #[trigger] ("groups_batch"@ + decimal(batch as nat) + "_l"@ + decimal(2048))
            && c.groups == 1 && c.x == seq![batch, 4, 1, 1, 2048]
}

/// Every sweep case's name spells the parameters its channels and shape come
/// from.
pub proof fn lemma_sweep_names_spell_cases()
    ensures
        forall|i: int| 0 <= i < sweep_table().len() ==> #[trigger] sweep_name_spells(sweep_table()[i]),
{
    assert forall|i: int| 0 <= i < sweep_table().len() implies #[trigger] sweep_name_spells(sweep_table()[i]) by {
        lemma_sweep_case_name(i);
    }
}

proof fn lemma_sweep_case_name(i: int)
    requires
        0 <= i < sweep_table().len(),
    ensures
        sweep_name_spells(sweep_table()[i]),
{
    let t = sweep_table();
    if i < 28 {
        let k = i;
        assert(0 <= k / 7 < 4 && 0 <= k % 7 < 7);
        let co = threshold_1d_cos()[k / 7];
        let w = threshold_1d_works()[k % 7];
        assert(t[i] == threshold_1d(co, w));
        assert(t[i].name == ("threshold_1d_co"@ + decimal(co as nat) + "_work"@ + decimal(w as nat)));
    } else if i < 44 {
        let k = i - 28;
        assert(0 <= k / 8 < 2 && 0 <= k % 8 < 8);
        let co = threshold_2d_cos()[k / 8];
        let side = threshold_2d_sides()[k % 8];
        assert(t[i] == threshold_2d(co, side));
        assert(t[i].name == ("threshold_2d_co"@ + decimal(co as nat) + "_side"@ + decimal(side as nat)));
    } else if i < 46 {
        let side: usize = if i == 44 { 7 } else { 14 };
        let ci: usize = if i == 44 { 64 } else { 128 };
        assert(t[i] == threshold_2d_co64(side, ci));
        reveal_strlit("threshold_2d_co64_side");
        reveal_strlit("threshold_2d_co");
        reveal_strlit("_side");
        reveal_with_fuel(decimal, 2);
        assert("threshold_2d_co64_side"@ =~= "threshold_2d_co"@ + decimal(64) + "_side"@);
        assert(t[i].name =~= ("threshold_2d_co"@ + decimal(64usize as nat) + "_side"@ + decimal(side as nat)));
    } else if i < 51 {
        let side = threshold_3d_sides()[i - 46];
        assert(t[i] == threshold_3d(side));
        assert(t[i].name == ("threshold_3d_side"@ + decimal(side as nat)));
    } else if i < 111 {
        let k = i - 51;
        assert(0 <= k / 15 < 4 && 0 <= (k / 5) % 3 < 3 && 0 <= k % 5 < 5);
        let co = threshold_1d_cos()[k / 15];
        let ci = gemm_1d_cis()[(k / 5) % 3];
        let w = gemm_1d_works()[k % 5];
        assert(t[i] == gemm_1d(co, ci, w));
        assert(t[i].name == ("gemm_1d_co"@ + decimal(co as nat) + "_ci"@ + decimal(ci as nat) + "_work"@ + decimal(w as nat)));
    } else if i < 135 {
        let k = i - 111;
        assert(0 <= k / 8 < 3 && 0 <= (k / 4) % 2 < 2 && 0 <= k % 4 < 4);
        let co = gemm_2d_cos()[k / 8];
        let ci = gemm_2d_cis()[(k / 4) % 2];
        let side = gemm_2d_sides()[k % 4];
        assert(t[i] == gemm_2d(co, ci, side));
        assert(t[i].name == ("gemm_2d_co"@ + decimal(co as nat) + "_ci"@ + decimal(ci as nat) + "_side"@ + decimal(side as nat)));
    } else if i < 159 {
        let k = i - 135;
        assert(0 <= k / 3 < 8 && 0 <= k % 3 < 3);
        let g = group_counts()[k / 3];
        let length = group_lengths()[k % 3];
        assert(t[i] == grouped(g, length));
        assert(t[i].name == ("groups_g"@ + decimal(g as nat) + "_l"@ + decimal(length as nat)));
    } else {
        let batch = batch_sizes()[i - 159];
        assert(t[i] == batched(batch));
        reveal_strlit("_l2048");
        reveal_strlit("_l");
        reveal_with_fuel(decimal, 4);
        assert("_l2048"@ =~= "_l"@ + decimal(2048));
        assert(t[i].name =~= ("groups_batch"@ + decimal(batch as nat) + "_l"@ + decimal(2048)));
    }
}

/// The cases of the dispatch-threshold sweep, in the order they run.
pub fn cases() -> (cases: Vec<SweepCase>)
    ensures
        cases@.len() == sweep_table().len(),
        forall|i: int| 0 <= i < cases@.len() ==> #[trigger] cases@[i]@ == sweep_table()[i],
{
    let mut cases = threshold_1d_cases();
    let mut more = threshold_2d_cases();
    proof { lemma_views_append(cases@, more@); }
    cases.append(&mut more);
    let mut more = threshold_2d_co64_cases();
    proof { lemma_views_append(cases@, more@); }
    cases.append(&mut more);
    let mut more = threshold_3d_cases();
    proof { lemma_views_append(cases@, more@); }
    cases.append(&mut more);
    let mut more = gemm_1d_cases();
    proof { lemma_views_append(cases@, more@); }
    cases.append(&mut more);
    let mut more = gemm_2d_cases();
    proof { lemma_views_append(cases@, more@); }
    cases.append(&mut more);
    let mut more = grouped_cases();
    proof { lemma_views_append(cases@, more@); }
    cases.append(&mut more);
    let mut more = batched_cases();
    proof { lemma_views_append(cases@, more@); }
    cases.append(&mut more);
    assert(case_views(cases@) =~= sweep_table());
    assert forall|i: int| 0 <= i < cases@.len() implies #[trigger] cases@[i]@ == sweep_table()[i] by {
        assert(case_views(cases@)[i] == cases@[i]@);
    }
    cases
}

/// The element type named by `name`: `f16`, `f32` or `f64`; any other name
/// names none.
pub fn parse_dtype(name: &str) -> (dtype: Option<SweepDtype>)
    ensures
        dtype == (if name@ == "f16"@ {
            Some(SweepDtype::F16)
        } else if name@ == "f64"@ {
            Some(SweepDtype::F64)
        } else if name@ == "f32"@ {
            Some(SweepDtype::F32)
        } else {
            None::<SweepDtype>
        }),
        dtype == Some(SweepDtype::F16) <==> name@ == "f"@ + decimal(16),
        dtype == Some(SweepDtype::F32) <==> name@ == "f"@ + decimal(32),
        dtype == Some(SweepDtype::F64) <==> name@ == "f"@ + decimal(64),
{
    proof {
        reveal_strlit("f");
        reveal_strlit("f16");
        reveal_strlit("f32");
        reveal_strlit("f64");
        reveal_with_fuel(decimal, 3);
        assert("f16"@ =~= "f"@ + decimal(16));
        assert("f32"@ =~= "f"@ + decimal(32));
        assert("f64"@ =~= "f"@ + decimal(64));
        assert("f16"@[1] != "f32"@[1] && "f16"@[1] != "f64"@[1] && "f32"@[1] != "f64"@[1]);
    }
    if same_text(name, "f16") {
        Some(SweepDtype::F16)
    } else if same_text(name, "f64") {
        Some(SweepDtype::F64)
    } else if same_text(name, "f32") {
        Some(SweepDtype::F32)
    } else {
        None
    }
}

impl SweepCase {
    /// Whether the comma-separated `filter` runs this case: some piece of it
    /// occurs in the case's name.
    pub fn selected_by(&self, filter: &str) -> (selected: bool)
        ensures
            selected == filter_selects(filter@, self.name@),
    {
        filter_matches(filter, self.name.as_str())
    }

    /// The shape of the weights of this case.
    pub fn weight_shape(&self) -> (shape: [usize; 5])
        ensures
            shape@ == sweep_weight_shape(self@),
    {
        let shape = [self.x[1], self.co, self.kernel[0], self.kernel[1], self.kernel[2]];
        assert(shape@ =~= sweep_weight_shape(self@));
        shape
    }

    /// The transposed-convolution options of this case: its stride, padding
    /// and group count, with no output padding and a dilation of one.
    pub fn transpose_options(&self) -> (options: ConvTransposeOptions<3>)
        requires
            options_valid(self@),
        ensures
            options == conv_transpose_options_of(self.stride@, self.pad@, seq![0usize, 0, 0], seq![1usize, 1, 1], self.groups),
    {
        let padding_out = [0, 0, 0];
        let dilation = [1, 1, 1];
        assert(padding_out@ =~= seq![0usize, 0, 0]);
        assert(dilation@ =~= seq![1usize, 1, 1]);
        new_conv_transpose_options(self.stride, self.pad, padding_out, dilation, self.groups)
    }
}

} // verus!
