//! The local UI store and reconciliation of server responses into it.
//!
//! The store is the single owner of the configuration (in UI form) and of the
//! last reported device state. A successful, well-formed response replaces the
//! device state wholesale; any other response — a reported failure, or an
//! envelope missing its payload or its error text — leaves the store untouched
//! and only hands back something for the caller to log. No response is ever
//! fatal.

use vstd::prelude::*;
use crate::config::{APIResponse, Config, State, state_of_api, to_ui, DEFAULT_CO2_TARGET};

verus! {

/// The state owned by the UI thread: the configuration the widgets show and
/// edit, and the device state of the latest server response.
#[derive(Clone, Copy, Debug, PartialEq, Eq, Structural)]
pub struct UiStore {
    pub config: Config,
    pub state: State,
}

impl UiStore {
    /// A store before the first server response: everything off and zero.
    pub fn new() -> (r: UiStore)
        ensures
            r == UiStore::initial(),
    {
        UiStore {
            config: Config {
                master_switch: false,
                force: false,
                target_temp: 0,
                require_co2: false,
                co2_target: DEFAULT_CO2_TARGET,
            },
            state: State { available: false, current_temp: 0, co2: 0, is_heating: false },
        }
    }

    pub open spec fn initial() -> UiStore {
        UiStore {
            config: Config {
                master_switch: false,
                force: false,
                target_temp: 0,
                require_co2: false,
                co2_target: DEFAULT_CO2_TARGET,
            },
            state: State { available: false, current_temp: 0, co2: 0, is_heating: false },
        }
    }
}

/// Why a response was not applied. None of these is fatal: the caller logs
/// and carries on.
#[derive(Clone, Debug, PartialEq, Eq)]
pub enum ApplyError {
    /// The server reported failure with this message.
    Api(String),
    /// The envelope reported failure but carried no message.
    MissingErrorText,
    /// The envelope reported success but carried no payload.
    MissingData,
    /// The envelope reported success but carried no configuration, though one
    /// was asked for.
    MissingConfig,
}

/// What applying a response does to the store: a successful response carrying
/// its payload replaces the device state with the reported one; anything else
/// changes nothing.
pub open spec fn apply_response_spec(store: UiStore, resp: APIResponse) -> UiStore {
    if resp.success && resp.data is Some {
        UiStore { config: store.config, state: state_of_api(resp.data->0.state) }
    } else {
        store
    }
}

/// Reconcile a response from a poll or a patch into the store. The device
/// state is replaced exactly when the response reports success and carries its
/// payload; the configuration is never touched here. Every other envelope —
/// a reported failure, or a success missing its payload — leaves the store
/// unchanged and returns what to log. No input panics.
pub fn try_apply_response(store: &mut UiStore, resp: &APIResponse) -> (r: Result<(), ApplyError>)
    ensures
        *final(store) == apply_response_spec(*old(store), *resp),
        r is Ok <==> resp.success && resp.data is Some,
        resp.success && resp.data is None ==> r == Err::<(), ApplyError>(ApplyError::MissingData),
        !resp.success && resp.error is Some ==> r == Err::<(), ApplyError>(ApplyError::Api(resp.error->0)),
        !resp.success && resp.error is None ==> r == Err::<(), ApplyError>(ApplyError::MissingErrorText),
{
    if resp.success {
        match &resp.data {
            Some(data) => {
                store.state = State::from(data.state);
                Ok(())
            },
            None => Err(ApplyError::MissingData),
        }
    } else {
        match &resp.error {
            Some(e) => Err(ApplyError::Api(e.clone())),
            None => Err(ApplyError::MissingErrorText),
        }
    }
}

/// What applying the startup response does: a successful response carrying
/// both its payload and a configuration overwrites the configuration and the
/// device state; anything else changes nothing.
pub open spec fn apply_initial_spec(store: UiStore, resp: APIResponse) -> UiStore {
    if resp.success && resp.data is Some && resp.data->0.config is Some {
        UiStore {
            config: to_ui(resp.data->0.config->0),
            state: state_of_api(resp.data->0.state),
        }
    } else {
        store
    }
}

/// Apply the response of the startup fetch, which asked for the configuration
/// as well. On a successful, complete envelope the store takes both the
/// configuration and the device state from the server; any other envelope
/// leaves the store unchanged and returns what to log. No input panics.
pub fn apply_initial_response(store: &mut UiStore, resp: &APIResponse) -> (r: Result<
    (),
    ApplyError,
>)
    ensures
        *final(store) == apply_initial_spec(*old(store), *resp),
        r is Ok <==> resp.success && resp.data is Some && resp.data->0.config is Some,
        resp.success && resp.data is None ==> r == Err::<(), ApplyError>(ApplyError::MissingData),
        resp.success && resp.data is Some && resp.data->0.config is None ==> r == Err::<(), ApplyError>(
            ApplyError::MissingConfig,
        ),
        !resp.success && resp.error is Some ==> r == Err::<(), ApplyError>(ApplyError::Api(resp.error->0)),
        !resp.success && resp.error is None ==> r == Err::<(), ApplyError>(ApplyError::MissingErrorText),
{
    if resp.success {
        match &resp.data {
            Some(data) => {
                match &data.config {
                    Some(cfg) => {
                        store.config = Config::from(*cfg);
                        store.state = State::from(data.state);
                        Ok(())
                    },
                    None => Err(ApplyError::MissingConfig),
                }
            },
            None => Err(ApplyError::MissingData),
        }
    } else {
        match &resp.error {
            Some(e) => Err(ApplyError::Api(e.clone())),
            None => Err(ApplyError::MissingErrorText),
        }
    }
}

/// Idempotence of reconciliation: applying the same poll result twice leaves
/// exactly the store that applying it once leaves.
pub proof fn lemma_reconcile_idempotent(store: UiStore, resp: APIResponse)
    ensures
        apply_response_spec(apply_response_spec(store, resp), resp) == apply_response_spec(
            store,
            resp,
        ),
{
}

/// The startup overwrite is idempotent as well.
pub proof fn lemma_initial_idempotent(store: UiStore, resp: APIResponse)
    ensures
        apply_initial_spec(apply_initial_spec(store, resp), resp) == apply_initial_spec(
            store,
            resp,
        ),
{
}

} // verus!
