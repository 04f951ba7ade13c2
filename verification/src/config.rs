use vstd::prelude::*;

verus! {

/// The launcher configuration published by the server.
#[derive(Debug)]
pub struct ConfiguracionLauncher {
    pub maintenance: Option<bool>,
    pub maintenance_message: Option<String>,
    pub online: Option<bool>,
    pub client_id: Option<String>,
    pub data_directory: Option<String>,
}

}
