use vstd::prelude::*;

use crate::networking::ServerMessage;
use crate::replay::Replay;

verus! {

/// What the client needs to talk to the highscore server: the player's tag and
/// the server's public key.
pub struct ServerConfig {
    idtag: String,
    publickey: [u8; 32],
}

impl ServerConfig {
    pub closed spec fn spec_idtag(&self) -> Seq<char> {
        self.idtag@
    }

    pub closed spec fn spec_publickey(&self) -> Seq<u8> {
        self.publickey@
    }

    /// An empty tag and a key of zero bytes.
    pub fn new() -> (result: Self)
        ensures
            result.spec_idtag() == Seq::<char>::empty(),
            result.spec_publickey() == Seq::new(32, |i: int| 0u8),
    {
        let result = ServerConfig { publickey: [0u8; 32], idtag: String::new() };
        assert(result.publickey@ =~= Seq::new(32, |i: int| 0u8));
        result
    }

    /// The server's public key.
    pub fn publickey(&self) -> (result: &[u8; 32])
        ensures
            result@ == self.spec_publickey(),
    {
        &self.publickey
    }

    /// The request for the highscore list, best scores first when `by_score` (else
    /// newest first), of this player's games only when `local`.
    pub fn scores_request(&self, by_score: bool, local: bool) -> (result: ServerMessage)
        ensures
            result matches ServerMessage::RequestHighscores { by_score: b, idtag, from, to } && b == by_score
                && from == 0 && to == 0 && (if local {
                idtag matches Some(t) && t@ == self.spec_idtag()
            } else {
                idtag is None
            }),
    {
        let idtag = if local { Some(self.idtag.clone()) } else { None };
        ServerMessage::RequestHighscores { by_score, idtag, from: 0, to: 0 }
    }

    /// The request that stores `replay` under `name` and this player's tag.
    pub fn upload_request(&self, name: &str, replay: &Replay) -> (result: ServerMessage)
        ensures
            result matches ServerMessage::UploadReplay { name: n, idtag, replay: r } && n@ == name@
                && idtag@ == self.spec_idtag() && r.entries() == replay.entries() && r.spec_time()
                == replay.spec_time() && r.spec_first() == replay.spec_first() && r.spec_second()
                == replay.spec_second() && r.spec_config().same_as(&replay.spec_config()),
    {
        ServerMessage::UploadReplay { name: name.to_string(), idtag: self.idtag.clone(), replay: replay.copy() }
    }

    /// The request for the stored game number `id`.
    pub fn replay_request(&self, id: usize) -> (result: ServerMessage)
        ensures
            result matches ServerMessage::RequestReplays { ids } && ids@ == seq![id],
    {
        let mut ids: Vec<usize> = Vec::new();
        ids.push(id);
        ServerMessage::RequestReplays { ids }
    }
}

} // verus!
