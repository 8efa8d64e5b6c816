//! How a pipeline is told to stop.

use tokio_util::sync::CancellationToken;
use vstd::prelude::*;

verus! {

/// A cancellation token of `tokio_util`. Its state changes behind shared references, so nothing
/// is said of whether it is cancelled: equal values are handles of one token.
#[verifier::external_type_specification]
#[verifier::external_body]
pub struct ExCancellationToken(tokio_util::sync::CancellationToken);

/// `CancellationToken::new` gives back a handle of a new token. Nothing is stated of it.
pub assume_specification[ tokio_util::sync::CancellationToken::new ]() -> (token:
    tokio_util::sync::CancellationToken)
;

/// `CancellationToken::clone` gives back another handle of the same token.
pub assume_specification[ <tokio_util::sync::CancellationToken as Clone>::clone ](
    token: &tokio_util::sync::CancellationToken,
) -> (handle: tokio_util::sync::CancellationToken)
    ensures
        handle == *token,
;

/// What makes a pipeline stop polling its source.
pub enum ShutdownSignal {
    /// A token of the pipeline's own.
    CtrlC,
    /// A token that the caller holds.
    Custom(CancellationToken),
    /// Nothing: the source is polled until it ends.
    Never,
}

impl Default for ShutdownSignal {
    fn default() -> (signal: ShutdownSignal)
        ensures
            signal is CtrlC,
    {
        ShutdownSignal::CtrlC
    }
}

impl ShutdownSignal {
    /// The token to watch, if any: that of the caller where there is one.
    pub fn into_token(self) -> (token: Option<CancellationToken>)
        ensures
            token is None <==> self is Never,
            self matches ShutdownSignal::Custom(custom) ==> token == Some(custom),
    {
        match self {
            ShutdownSignal::CtrlC => Some(CancellationToken::new()),
            ShutdownSignal::Custom(token) => Some(token),
            ShutdownSignal::Never => None,
        }
    }
}

/// A pipeline watches the token that its caller holds, watches one where nothing was said, and
/// watches none only where it is never to be stopped.
pub proof fn a_signal_gives_the_token_to_watch(
    signal: ShutdownSignal,
    token: Option<CancellationToken>,
)
    requires
        call_ensures(ShutdownSignal::into_token, (signal,), token),
    ensures
        signal matches ShutdownSignal::Custom(held) ==> token == Some(held),
        signal is CtrlC ==> token is Some,
        signal is Never ==> token is None,
{
}

/// Where nothing is said, a pipeline has a token of its own.
pub proof fn a_pipeline_can_be_stopped_by_default(signal: ShutdownSignal)
    requires
        call_ensures(<ShutdownSignal as Default>::default, (), signal),
    ensures
        signal is CtrlC,
{
}

} // verus!
