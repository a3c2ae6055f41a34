use vstd::prelude::*;

verus! {

/// Rolling counters a metrics collector keeps around the search engine: how
/// many queries ran, and the result count and elapsed time (in microseconds)
/// of the most recent one.
pub struct MetricasBusca {
    pub tempo_resposta: u64,
    pub resultados_encontrados: usize,
    pub consultas_realizadas: u32,
}

impl MetricasBusca {
    pub fn new() -> (r: Self)
        ensures
            r.tempo_resposta == 0,
            r.resultados_encontrados == 0,
            r.consultas_realizadas == 0,
    {
        MetricasBusca { tempo_resposta: 0, resultados_encontrados: 0, consultas_realizadas: 0 }
    }

    /// Counts one more query and records its result count and elapsed time,
    /// overwriting the previous reading.
    pub fn registrar_consulta(&mut self, resultados: usize, tempo: u64)
        requires
            old(self).consultas_realizadas < u32::MAX,
        ensures
            final(self).consultas_realizadas == old(self).consultas_realizadas + 1,
            final(self).resultados_encontrados == resultados,
            final(self).tempo_resposta == tempo,
    {
        self.consultas_realizadas = self.consultas_realizadas + 1;
        self.resultados_encontrados = resultados;
        self.tempo_resposta = tempo;
    }
}

} // verus!
