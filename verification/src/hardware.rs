//! Hardware probes: barcode scanner, NFC reader, biometrics.  The platform
//! calls stand with the caller; the scanner's start/stop arbitration and
//! the per-platform answers live here.

use vstd::prelude::*;

verus! {

/// One barcode or NFC scan handed to the UI layer.
#[derive(Debug, Clone)]
pub struct ScanResult {
    pub data: String,
    pub scan_type: String,
    pub timestamp: i64,
}

/// Whether a scan listener is active; guards against starting two
/// listeners at once.
#[derive(Debug, Clone)]
pub struct ScannerState {
    pub is_scanning: bool,
}

impl Default for ScannerState {
    /// A fresh state: no scan in progress.
    fn default() -> (r: Self)
        ensures
            !r.is_scanning,
    {
        ScannerState { is_scanning: false }
    }
}

impl ScannerState {
    /// Claim the scanner.  Refused exactly when a scan is already active.
    pub fn try_start(&mut self) -> (r: Result<(), String>)
        ensures
            final(self).is_scanning,
            old(self).is_scanning ==> (r matches Err(m) && m@ == "Scanner already active"@),
            !old(self).is_scanning ==> r is Ok,
    {
        if self.is_scanning {
            Err("Scanner already active".to_owned())
        } else {
            self.is_scanning = true;
            Ok(())
        }
    }

    /// Release the scanner.
    pub fn stop(&mut self)
        ensures
            !final(self).is_scanning,
    {
        self.is_scanning = false;
    }
}

/// Windows Hello presence probe; the simplified build reports it present.
pub fn check_windows_hello() -> (r: Result<bool, String>)
    ensures
        r == Ok::<bool, String>(true),
{
    Ok(true)
}

/// Touch ID presence probe; the simplified build reports it present.
pub fn check_touch_id() -> (r: Result<bool, String>)
    ensures
        r == Ok::<bool, String>(true),
{
    Ok(true)
}

/// Windows Hello consent prompt; the simplified build always grants it.
pub fn authenticate_windows_hello(_reason: String) -> (r: Result<bool, String>)
    ensures
        r == Ok::<bool, String>(true),
{
    Ok(true)
}

/// Touch ID consent prompt; the simplified build always grants it.
pub fn authenticate_touch_id(_reason: String) -> (r: Result<bool, String>)
    ensures
        r == Ok::<bool, String>(true),
{
    Ok(true)
}

} // verus!
