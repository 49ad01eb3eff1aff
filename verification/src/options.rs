use vstd::prelude::*;
use burn_backend::ops::ConvTransposeOptions;

verus! {

#[verifier::external_type_specification]
#[verifier::external_body]
pub struct ExConvTransposeOptions<const N: usize>(ConvTransposeOptions<N>);

/// The options value that `ConvTransposeOptions::<3>::new` builds from its
/// stride, padding, output padding, dilation and group count.
pub uninterp spec fn conv_transpose_options_of(
    stride: Seq<usize>,
    padding: Seq<usize>,
    padding_out: Seq<usize>,
    dilation: Seq<usize>,
    groups: usize,
) -> ConvTransposeOptions<3>;

/// Calls `burn_backend::ops::ConvTransposeOptions::<3>::new`, which stores its
/// arguments and panics when a stride, a dilation or the group count is zero;
/// the contract excludes those inputs and names the stored value.
#[verifier::external_body]
pub(crate) fn new_conv_transpose_options(
    stride: [usize; 3],
    padding: [usize; 3],
    padding_out: [usize; 3],
    dilation: [usize; 3],
    groups: usize,
) -> (options: ConvTransposeOptions<3>)
    requires
        forall|i: int| 0 <= i < 3 ==> #[trigger] stride@[i] != 0,
        forall|i: int| 0 <= i < 3 ==> #[trigger] dilation@[i] != 0,
        groups != 0,
    ensures
        options == conv_transpose_options_of(stride@, padding@, padding_out@, dilation@, groups),
{
    ConvTransposeOptions::new(stride, padding, padding_out, dilation, groups)
}

} // verus!
