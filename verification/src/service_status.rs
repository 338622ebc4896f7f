//! The service status and the admission rule it imposes on submissions.

use crate::hash::H256;
use crate::ledger_transaction::{LedgerTxData, LedgerTxDataView};
use vstd::prelude::*;

verus! {

/// The operational mode of the service.
#[derive(Clone, Copy, Debug, PartialEq, Eq, Structural)]
pub enum ServiceStatus {
    /// Every submission is admitted.
    Active,
    /// Only the sequencer's own transactions are admitted.
    Maintenance,
    /// No submission is admitted.
    ReadOnlyMode,
    /// Only data of the base layer is admitted.
    DateImportMode,
}

impl Default for ServiceStatus {
    fn default() -> (status: ServiceStatus)
        ensures
            status == ServiceStatus::Active,
    {
        ServiceStatus::Active
    }
}

/// Why a submission was not admitted: the mode that refused it.
#[derive(Clone, Copy, Debug, PartialEq, Eq, Structural)]
pub enum AdmissionError {
    ReadOnlyMode,
    DateImportMode,
    Maintenance,
}

impl AdmissionError {
    /// The reason in words.
    pub fn message(&self) -> (text: &'static str)
        ensures
            text@ == match self {
                AdmissionError::ReadOnlyMode => "The service is in read-only mode"@,
                AdmissionError::DateImportMode =>
                    "The service is in date import mode, only allow l1 block and l1 tx"@,
                AdmissionError::Maintenance => "The service is in maintenance mode"@,
            },
    {
        match self {
            AdmissionError::ReadOnlyMode => "The service is in read-only mode",
            AdmissionError::DateImportMode =>
                "The service is in date import mode, only allow l1 block and l1 tx",
            AdmissionError::Maintenance => "The service is in maintenance mode",
        }
    }
}

/// The admission rule. Read-only mode admits nothing. Date import mode
/// admits block references and layer-2 transactions that relay the base
/// layer. Maintenance mode admits layer-2 transactions sent from the
/// sequencer's own address. Active mode admits everything.
pub open spec fn admission(
    status: ServiceStatus,
    data: LedgerTxDataView,
    sequencer_address: Seq<u8>,
) -> Result<(), AdmissionError> {
    match status {
        ServiceStatus::ReadOnlyMode => Err(AdmissionError::ReadOnlyMode),
        ServiceStatus::DateImportMode => if data is L1Block || data.is_l1_tx() {
            Ok(())
        } else {
            Err(AdmissionError::DateImportMode)
        },
        ServiceStatus::Maintenance => if data.sender() == Some(sequencer_address) {
            Ok(())
        } else {
            Err(AdmissionError::Maintenance)
        },
        ServiceStatus::Active => Ok(()),
    }
}

/// Decides whether a submission is admitted under `status`.
pub fn check_admission(
    status: ServiceStatus,
    tx_data: &LedgerTxData,
    sequencer_address: &H256,
) -> (r: Result<(), AdmissionError>)
    ensures
        r == admission(status, tx_data@, sequencer_address@),
{
    match status {
        ServiceStatus::ReadOnlyMode => Err(AdmissionError::ReadOnlyMode),
        ServiceStatus::DateImportMode => {
            if !tx_data.is_l1_block() && !tx_data.is_l1_tx() {
                Err(AdmissionError::DateImportMode)
            } else {
                Ok(())
            }
        },
        ServiceStatus::Maintenance => {
            match tx_data.sender() {
                Some(sender) => {
                    if sender != *sequencer_address {
                        Err(AdmissionError::Maintenance)
                    } else {
                        Ok(())
                    }
                },
                None => Err(AdmissionError::Maintenance),
            }
        },
        ServiceStatus::Active => Ok(()),
    }
}

} // verus!
