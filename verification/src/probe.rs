use vstd::prelude::*;
use burn_backend::ops::ConvTransposeOptions;
use crate::options::{conv_transpose_options_of, new_conv_transpose_options};
use crate::text::{decimal, same_text};
use crate::values::{lemma_positive_product_fits, product_fits};

verus! {

/// What a benchmark case holds, as plain values: the input shape
/// `[batch, channels, depth, height, width]`, the output channels, and the
/// kernel, stride, padding and dilation of each spatial axis.
pub struct CaseSpec {
    pub name: Seq<char>,
    pub x: Seq<usize>,
    pub co: usize,
    pub kernel: Seq<usize>,
    pub stride: Seq<usize>,
    pub pad: Seq<usize>,
    pub dilation: Seq<usize>,
    pub groups: usize,
}

/// A case of the fixed operator benchmark.
pub struct ProbeCase {
    pub name: &'static str,
    pub x: [usize; 5],
    pub co: usize,
    pub kernel: [usize; 3],
    pub stride: [usize; 3],
    pub pad: [usize; 3],
    pub dilation: [usize; 3],
    pub groups: usize,
}

impl View for ProbeCase {
    type V = CaseSpec;

    open spec fn view(&self) -> CaseSpec {
        CaseSpec {
            name: self.name@,
            x: self.x@,
            co: self.co,
            kernel: self.kernel@,
            stride: self.stride@,
            pad: self.pad@,
            dilation: self.dilation@,
            groups: self.groups,
        }
    }
}

/// The transposed convolution of a case is well defined: every stride and
/// dilation is positive and the group count is positive.
pub open spec fn options_valid(c: CaseSpec) -> bool {
    &&& c.stride.len() == 3
    &&& c.dilation.len() == 3
    &&& forall|i: int| 0 <= i < 3 ==> #[trigger] c.stride[i] != 0
    &&& forall|i: int| 0 <= i < 3 ==> #[trigger] c.dilation[i] != 0
    &&& c.groups != 0
}

/// The weight shape of a fixed-benchmark case:
/// `[in_channels, out_channels / groups, kd, kh, kw]`.
pub open spec fn probe_weight_shape(c: CaseSpec) -> Seq<usize> {
    seq![c.x[1], c.co / c.groups, c.kernel[0], c.kernel[1], c.kernel[2]]
}

pub open spec fn spec_case(
    name: Seq<char>,
    x: Seq<usize>,
    co: usize,
    kernel: Seq<usize>,
    stride: Seq<usize>,
    pad: Seq<usize>,
    dilation: Seq<usize>,
    groups: usize,
) -> CaseSpec {
    CaseSpec { name, x, co, kernel, stride, pad, dilation, groups }
}

/// The twelve cases of the fixed operator benchmark, in order.
pub open spec fn probe_table() -> Seq<CaseSpec> {
    let ones = seq![1usize, 1, 1];
    let zeros = seq![0usize, 0, 0];
    seq![
        spec_case("image_368_k2s2"@, seq![1usize, 64, 1, 368, 368], 64, seq![1usize, 2, 2], seq![1usize, 2, 2], zeros, ones, 1),
        spec_case("image_256_k4s2"@, seq![1usize, 32, 1, 256, 256], 32, seq![1usize, 4, 4], seq![1usize, 2, 2], seq![0usize, 1, 1], ones, 1),
        spec_case("image_128_k3s1"@, seq![1usize, 64, 1, 128, 128], 64, seq![1usize, 3, 3], ones, seq![0usize, 1, 1], ones, 1),
        spec_case("volume_32_k3s2"@, seq![1usize, 16, 32, 32, 32], 16, seq![3usize, 3, 3], seq![2usize, 2, 2], seq![1usize, 1, 1], ones, 1),
        spec_case("volume_24_k2s2"@, seq![1usize, 32, 24, 24, 24], 32, seq![2usize, 2, 2], seq![2usize, 2, 2], zeros, ones, 1),
        spec_case("audio_l8192_k16s8"@, seq![1usize, 32, 1, 1, 8192], 32, seq![1usize, 1, 16], seq![1usize, 1, 8], seq![0usize, 0, 4], ones, 1),
        spec_case("audio_l2048_k8s4"@, seq![1usize, 64, 1, 1, 2048], 64, seq![1usize, 1, 8], seq![1usize, 1, 4], seq![0usize, 0, 2], ones, 1),
        spec_case("groups4_batch2"@, seq![2usize, 32, 1, 129, 127], 32, seq![1usize, 4, 4], seq![1usize, 2, 2], seq![0usize, 1, 1], ones, 4),
        spec_case("dilation2_tail"@, seq![1usize, 16, 1, 131, 137], 24, seq![1usize, 3, 5], seq![1usize, 2, 3], seq![0usize, 2, 3], seq![1usize, 2, 2], 1),
        spec_case("small_7_k4s2"@, seq![1usize, 64, 1, 7, 7], 64, seq![1usize, 4, 4], seq![1usize, 2, 2], seq![0usize, 1, 1], ones, 1),
        spec_case("small_14_k4s2"@, seq![1usize, 128, 1, 14, 14], 64, seq![1usize, 4, 4], seq![1usize, 2, 2], seq![0usize, 1, 1], ones, 1),
        spec_case("depthwise_256"@, seq![1usize, 16, 1, 256, 256], 16, seq![1usize, 3, 3], seq![1usize, 2, 2], seq![0usize, 1, 1], ones, 16),
    ]
}

/// A case describes a well-defined transposed convolution whose tensors can be
/// generated: its options are valid, the group count divides the input and
/// output channels, and the element counts of input and weights fit in `usize`.
pub open spec fn case_well_formed(c: CaseSpec, weights: Seq<usize>) -> bool {
    &&& options_valid(c)
    &&& c.x.len() == 5
    &&& c.x[1] % c.groups == 0
    &&& c.co % c.groups == 0
    &&& product_fits(c.x)
    &&& product_fits(weights)
}

/// Every case of the fixed benchmark is well formed, with the weight shape
/// that benchmark uses.
pub proof fn lemma_probe_table_well_formed()
    ensures
        forall|i: int| 0 <= i < probe_table().len() ==>
            #[trigger] case_well_formed(probe_table()[i], probe_weight_shape(probe_table()[i])),
{
    assert forall|i: int| 0 <= i < probe_table().len() implies
        #[trigger] case_well_formed(probe_table()[i], probe_weight_shape(probe_table()[i])) by {
        let c = probe_table()[i];
        let w = probe_weight_shape(c);
        assert(w[1] >= 1) by {
            if i == 0 {
                assert(c.co == 64 && c.groups == 1);
                assert(c.co / c.groups == 64);
            } else if i == 1 {
                assert(c.co == 32 && c.groups == 1);
                assert(c.co / c.groups == 32);
            } else if i == 2 {
                assert(c.co == 64 && c.groups == 1);
                assert(c.co / c.groups == 64);
            } else if i == 3 {
                assert(c.co == 16 && c.groups == 1);
                assert(c.co / c.groups == 16);
            } else if i == 4 {
                assert(c.co == 32 && c.groups == 1);
                assert(c.co / c.groups == 32);
            } else if i == 5 {
                assert(c.co == 32 && c.groups == 1);
                assert(c.co / c.groups == 32);
            } else if i == 6 {
                assert(c.co == 64 && c.groups == 1);
                assert(c.co / c.groups == 64);
            } else if i == 7 {
                assert(c.co == 32 && c.groups == 4);
                assert(c.co / c.groups == 8) by (nonlinear_arith)
                    requires
                        c.co == 32,
                        c.groups == 4,
                ;
            } else if i == 8 {
                assert(c.co == 24 && c.groups == 1);
                assert(c.co / c.groups == 24);
            } else if i == 9 {
                assert(c.co == 64 && c.groups == 1);
                assert(c.co / c.groups == 64);
            } else if i == 10 {
                assert(c.co == 64 && c.groups == 1);
                assert(c.co / c.groups == 64);
            } else {
                assert(c.co == 16 && c.groups == 16);
                assert(c.co / c.groups == 1);
            }
        }
        lemma_positive_product_fits(c.x);
        lemma_positive_product_fits(w);
    }
}

/// No choice and `all` run every case, a case's own name runs it, and any
/// other choice runs only the case it names.
pub proof fn lemma_probe_selection(choice: Seq<char>, name: Seq<char>)
    ensures
        probe_selects(None, name),
        probe_selects(Some("all"@), name),
        probe_selects(Some(name), name),
        probe_selects(Some(choice), name) ==> choice == name || choice == "all"@,
{
}

/// The settings of a case agree across axes with its input shape: a case
/// deeper than one plane is volumetric and uses the same kernel, stride,
/// padding and dilation on all three axes, and an axis of extent one carries
/// no work: kernel, stride and dilation one and no padding on it.
pub open spec fn axes_consistent(c: CaseSpec) -> bool {
    &&& c.x.len() == 5 && c.kernel.len() == 3 && c.stride.len() == 3 && c.pad.len() == 3 && c.dilation.len() == 3
    &&& c.x[2] > 1 ==> {
        &&& c.kernel[0] == c.kernel[1] && c.kernel[1] == c.kernel[2]
        &&& c.stride[0] == c.stride[1] && c.stride[1] == c.stride[2]
        &&& c.pad[0] == c.pad[1] && c.pad[1] == c.pad[2]
        &&& c.dilation[0] == c.dilation[1] && c.dilation[1] == c.dilation[2]
    }
    &&& c.x[2] == 1 ==> c.kernel[0] == 1 && c.stride[0] == 1 && c.pad[0] == 0 && c.dilation[0] == 1
    &&& c.x[3] == 1 ==> c.kernel[1] == 1 && c.stride[1] == 1 && c.pad[1] == 0 && c.dilation[1] == 1
}

/// The name of a fixed case spells its settings: `<kind>_<width>_k<kernel>s<stride>`
/// with the kernel and stride of the last axis, `groups<g>_batch<b>`,
/// `dilation<d>_tail` with the dilation of the last axis, or
/// `depthwise_<width>` for a case with one group per channel.
pub open spec fn name_spells_settings(c: CaseSpec) -> bool {
    ||| exists|p: Seq<char>| (p == "image_"@ || p == "volume_"@ || p == "small_"@ || p == "audio_l"@)
        && c.name == #[trigger] (p + decimal(c.x[4] as nat) + "_k"@ + decimal(c.kernel[2] as nat) + "s"@ + decimal(c.stride[2] as nat))
    ||| c.name == "groups"@ + decimal(c.groups as nat) + "_batch"@ + decimal(c.x[0] as nat)
    ||| c.name == "dilation"@ + decimal(c.dilation[2] as nat) + "_tail"@ && c.dilation[1] == c.dilation[2]
    ||| c.name == "depthwise_"@ + decimal(c.x[4] as nat) && c.groups == c.x[1] && c.groups == c.co
}

/// Every fixed case has consistent axes and a name that spells its settings.
pub proof fn lemma_probe_cases_self_describing()
    ensures
        forall|i: int| 0 <= i < probe_table().len() ==> #[trigger] axes_consistent(probe_table()[i]),
        forall|i: int| 0 <= i < probe_table().len() ==> #[trigger] name_spells_settings(probe_table()[i]),
{
    reveal_strlit("_batch");
    reveal_strlit("_k");
    reveal_strlit("_tail");
    reveal_strlit("audio_l");
    reveal_strlit("audio_l2048_k8s4");
    reveal_strlit("audio_l8192_k16s8");
    reveal_strlit("depthwise_");
    reveal_strlit("depthwise_256");
    reveal_strlit("dilation");
    reveal_strlit("dilation2_tail");
    reveal_strlit("groups");
    reveal_strlit("groups4_batch2");
    reveal_strlit("image_");
    reveal_strlit("image_128_k3s1");
    reveal_strlit("image_256_k4s2");
    reveal_strlit("image_368_k2s2");
    reveal_strlit("s");
    reveal_strlit("small_");
    reveal_strlit("small_14_k4s2");
    reveal_strlit("small_7_k4s2");
    reveal_strlit("volume_");
    reveal_strlit("volume_24_k2s2");
    reveal_strlit("volume_32_k3s2");
    reveal_with_fuel(decimal, 5);
    assert(probe_table()[0].name =~= "image_"@ + decimal(368) + "_k"@ + decimal(2) + "s"@ + decimal(2));
    assert(probe_table()[1].name =~= "image_"@ + decimal(256) + "_k"@ + decimal(4) + "s"@ + decimal(2));
    assert(probe_table()[2].name =~= "image_"@ + decimal(128) + "_k"@ + decimal(3) + "s"@ + decimal(1));
    assert(probe_table()[3].name =~= "volume_"@ + decimal(32) + "_k"@ + decimal(3) + "s"@ + decimal(2));
    assert(probe_table()[4].name =~= "volume_"@ + decimal(24) + "_k"@ + decimal(2) + "s"@ + decimal(2));
    assert(probe_table()[5].name =~= "audio_l"@ + decimal(8192) + "_k"@ + decimal(16) + "s"@ + decimal(8));
    assert(probe_table()[6].name =~= "audio_l"@ + decimal(2048) + "_k"@ + decimal(8) + "s"@ + decimal(4));
    assert(probe_table()[9].name =~= "small_"@ + decimal(7) + "_k"@ + decimal(4) + "s"@ + decimal(2));
    assert(probe_table()[10].name =~= "small_"@ + decimal(14) + "_k"@ + decimal(4) + "s"@ + decimal(2));
    assert(probe_table()[7].name =~= "groups"@ + decimal(4) + "_batch"@ + decimal(2));
    assert(probe_table()[8].name =~= "dilation"@ + decimal(2) + "_tail"@);
    assert(probe_table()[11].name =~= "depthwise_"@ + decimal(256));
    assert forall|i: int| 0 <= i < probe_table().len() implies #[trigger] name_spells_settings(probe_table()[i]) by {
        let c = probe_table()[i];
        if i == 0 || i == 1 || i == 2 {
            assert(c.name == "image_"@ + decimal(c.x[4] as nat) + "_k"@ + decimal(c.kernel[2] as nat) + "s"@ + decimal(c.stride[2] as nat));
        } else if i == 3 || i == 4 {
            assert(c.name == "volume_"@ + decimal(c.x[4] as nat) + "_k"@ + decimal(c.kernel[2] as nat) + "s"@ + decimal(c.stride[2] as nat));
        } else if i == 5 || i == 6 {
            assert(c.name == "audio_l"@ + decimal(c.x[4] as nat) + "_k"@ + decimal(c.kernel[2] as nat) + "s"@ + decimal(c.stride[2] as nat));
        } else if i == 9 || i == 10 {
            assert(c.name == "small_"@ + decimal(c.x[4] as nat) + "_k"@ + decimal(c.kernel[2] as nat) + "s"@ + decimal(c.stride[2] as nat));
        }
    }
}

/// The fixed cases, field by field, in order.
pub proof fn lemma_probe_table_values()
    ensures
        probe_table().len() == 12,
        probe_table()[0] == (CaseSpec { name: "image_368_k2s2"@, x: seq![1usize, 64, 1, 368, 368], co: 64, kernel: seq![1usize, 2, 2], stride: seq![1usize, 2, 2], pad: seq![0usize, 0, 0], dilation: seq![1usize, 1, 1], groups: 1 }),
        probe_table()[1] == (CaseSpec { name: "image_256_k4s2"@, x: seq![1usize, 32, 1, 256, 256], co: 32, kernel: seq![1usize, 4, 4], stride: seq![1usize, 2, 2], pad: seq![0usize, 1, 1], dilation: seq![1usize, 1, 1], groups: 1 }),
        probe_table()[2] == (CaseSpec { name: "image_128_k3s1"@, x: seq![1usize, 64, 1, 128, 128], co: 64, kernel: seq![1usize, 3, 3], stride: seq![1usize, 1, 1], pad: seq![0usize, 1, 1], dilation: seq![1usize, 1, 1], groups: 1 }),
        probe_table()[3] == (CaseSpec { name: "volume_32_k3s2"@, x: seq![1usize, 16, 32, 32, 32], co: 16, kernel: seq![3usize, 3, 3], stride: seq![2usize, 2, 2], pad: seq![1usize, 1, 1], dilation: seq![1usize, 1, 1], groups: 1 }),
        probe_table()[4] == (CaseSpec { name: "volume_24_k2s2"@, x: seq![1usize, 32, 24, 24, 24], co: 32, kernel: seq![2usize, 2, 2], stride: seq![2usize, 2, 2], pad: seq![0usize, 0, 0], dilation: seq![1usize, 1, 1], groups: 1 }),
        probe_table()[5] == (CaseSpec { name: "audio_l8192_k16s8"@, x: seq![1usize, 32, 1, 1, 8192], co: 32, kernel: seq![1usize, 1, 16], stride: seq![1usize, 1, 8], pad: seq![0usize, 0, 4], dilation: seq![1usize, 1, 1], groups: 1 }),
        probe_table()[6] == (CaseSpec { name: "audio_l2048_k8s4"@, x: seq![1usize, 64, 1, 1, 2048], co: 64, kernel: seq![1usize, 1, 8], stride: seq![1usize, 1, 4], pad: seq![0usize, 0, 2], dilation: seq![1usize, 1, 1], groups: 1 }),
        probe_table()[7] == (CaseSpec { name: "groups4_batch2"@, x: seq![2usize, 32, 1, 129, 127], co: 32, kernel: seq![1usize, 4, 4], stride: seq![1usize, 2, 2], pad: seq![0usize, 1, 1], dilation: seq![1usize, 1, 1], groups: 4 }),
        probe_table()[8] == (CaseSpec { name: "dilation2_tail"@, x: seq![1usize, 16, 1, 131, 137], co: 24, kernel: seq![1usize, 3, 5], stride: seq![1usize, 2, 3], pad: seq![0usize, 2, 3], dilation: seq![1usize, 2, 2], groups: 1 }),
        probe_table()[9] == (CaseSpec { name: "small_7_k4s2"@, x: seq![1usize, 64, 1, 7, 7], co: 64, kernel: seq![1usize, 4, 4], stride: seq![1usize, 2, 2], pad: seq![0usize, 1, 1], dilation: seq![1usize, 1, 1], groups: 1 }),
        probe_table()[10] == (CaseSpec { name: "small_14_k4s2"@, x: seq![1usize, 128, 1, 14, 14], co: 64, kernel: seq![1usize, 4, 4], stride: seq![1usize, 2, 2], pad: seq![0usize, 1, 1], dilation: seq![1usize, 1, 1], groups: 1 }),
        probe_table()[11] == (CaseSpec { name: "depthwise_256"@, x: seq![1usize, 16, 1, 256, 256], co: 16, kernel: seq![1usize, 3, 3], stride: seq![1usize, 2, 2], pad: seq![0usize, 1, 1], dilation: seq![1usize, 1, 1], groups: 16 }),
{
}

/// Whether the command-line choice `choice` runs the case called `name`: no
/// choice or `all` runs every case, any other choice only the case of that
/// name.
pub open spec fn probe_selects(choice: Option<Seq<char>>, name: Seq<char>) -> bool {
    match choice {
        None => true,
        Some(c) => c == "all"@ || c == name,
    }
}

fn case(
    name: &'static str,
    x: [usize; 5],
    co: usize,
    kernel: [usize; 3],
    stride: [usize; 3],
    pad: [usize; 3],
    dilation: [usize; 3],
    groups: usize,
) -> (c: ProbeCase)
    ensures
        c@ == spec_case(name@, x@, co, kernel@, stride@, pad@, dilation@, groups),
{
    ProbeCase { name, x, co, kernel, stride, pad, dilation, groups }
}

/// The cases of the fixed operator benchmark, in the order they run.
pub fn probe_cases() -> (cases: Vec<ProbeCase>)
    ensures
        cases@.len() == probe_table().len(),
        forall|i: int| 0 <= i < cases@.len() ==> #[trigger] cases@[i]@ == probe_table()[i],
{
    let ones = [1, 1, 1];
    let zeros = [0, 0, 0];
    let mut cases: Vec<ProbeCase> = Vec::new();
    cases.push(case("image_368_k2s2", [1, 64, 1, 368, 368], 64, [1, 2, 2], [1, 2, 2], zeros, ones, 1));
    cases.push(case("image_256_k4s2", [1, 32, 1, 256, 256], 32, [1, 4, 4], [1, 2, 2], [0, 1, 1], ones, 1));
    cases.push(case("image_128_k3s1", [1, 64, 1, 128, 128], 64, [1, 3, 3], ones, [0, 1, 1], ones, 1));
    cases.push(case("volume_32_k3s2", [1, 16, 32, 32, 32], 16, [3, 3, 3], [2, 2, 2], [1, 1, 1], ones, 1));
    cases.push(case("volume_24_k2s2", [1, 32, 24, 24, 24], 32, [2, 2, 2], [2, 2, 2], zeros, ones, 1));
    cases.push(case("audio_l8192_k16s8", [1, 32, 1, 1, 8192], 32, [1, 1, 16], [1, 1, 8], [0, 0, 4], ones, 1));
    cases.push(case("audio_l2048_k8s4", [1, 64, 1, 1, 2048], 64, [1, 1, 8], [1, 1, 4], [0, 0, 2], ones, 1));
    cases.push(case("groups4_batch2", [2, 32, 1, 129, 127], 32, [1, 4, 4], [1, 2, 2], [0, 1, 1], ones, 4));
    cases.push(case("dilation2_tail", [1, 16, 1, 131, 137], 24, [1, 3, 5], [1, 2, 3], [0, 2, 3], [1, 2, 2], 1));
    cases.push(case("small_7_k4s2", [1, 64, 1, 7, 7], 64, [1, 4, 4], [1, 2, 2], [0, 1, 1], ones, 1));
    cases.push(case("small_14_k4s2", [1, 128, 1, 14, 14], 64, [1, 4, 4], [1, 2, 2], [0, 1, 1], ones, 1));
    cases.push(case("depthwise_256", [1, 16, 1, 256, 256], 16, [1, 3, 3], [1, 2, 2], [0, 1, 1], ones, 16));
    assert(cases@.len() == probe_table().len());
    assert forall|i: int| 0 <= i < cases@.len() implies #[trigger] cases@[i]@ == probe_table()[i] by {
        assert(ones@ =~= seq![1usize, 1, 1]);
        assert(zeros@ =~= seq![0usize, 0, 0]);
    }
    cases
}

/// Whether the command-line choice runs the case called `name`.
pub fn is_selected(choice: Option<&str>, name: &str) -> (selected: bool)
    ensures
        selected == probe_selects(
            match choice {
                Some(c) => Some(c@),
                None => None,
            },
            name@,
        ),
{
    match choice {
        None => true,
        Some(c) => same_text(c, "all") || same_text(c, name),
    }
}

impl ProbeCase {
    /// The shape of the weights of this case.
    pub fn weight_shape(&self) -> (shape: [usize; 5])
        requires
            self.groups != 0,
        ensures
            shape@ == probe_weight_shape(self@),
    {
        let shape = [self.x[1], self.co / self.groups, self.kernel[0], self.kernel[1], self.kernel[2]];
        assert(shape@ =~= probe_weight_shape(self@));
        shape
    }

    /// The transposed-convolution options of this case: its stride, padding,
    /// dilation and group count, with no output padding.
    pub fn transpose_options(&self) -> (options: ConvTransposeOptions<3>)
        requires
            options_valid(self@),
        ensures
            options == conv_transpose_options_of(self.stride@, self.pad@, seq![0usize, 0, 0], self.dilation@, self.groups),
    {
        let padding_out = [0, 0, 0];
        assert(padding_out@ =~= seq![0usize, 0, 0]);
        new_conv_transpose_options(self.stride, self.pad, padding_out, self.dilation, self.groups)
    }
}

} // verus!
